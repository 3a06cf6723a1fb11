use cool_syntax::diagnostics::{
    diagnose, diagnose_span, lex_diagnostics, locate, Diagnostic, LexFailure,
};
use cool_syntax::lexical::LexError;
use cool_syntax::token::Span;

#[test]
fn shows_line_column_and_carets() {
    let source = "class A {\n  x : Int <- ##;\n};\n";
    let shown = diagnose(source, Span { start: 23, end: 25 }, 1, 10);
    let expected = Diagnostic {
        span: Span { start: 23, end: 25 },
        line: 2,
        column: 14,
        text: "##".to_string(),
        line_text: "  x : Int <- ##;".to_string(),
        indicator: "             ^^".to_string(),
    };
    assert_eq!(shown, expected);
}

#[test]
fn tabs_reach_to_the_next_stop() {
    let source = "\tout(\t#)\n";
    let shown = diagnose(source, Span { start: 6, end: 7 }, 0, 0);
    assert_eq!(shown.line, 1);
    assert_eq!(shown.column, 7);
    assert_eq!(shown.text, "#");
    assert_eq!(shown.line_text, "        out(    #)");
    assert_eq!(shown.indicator, "                ^");
}

#[test]
fn characters_of_several_bytes_take_one_column() {
    let source = "\u{e9}\u{e9} #\n";
    let shown = diagnose(source, Span { start: 5, end: 6 }, 0, 0);
    assert_eq!(shown.column, 6);
    assert_eq!(shown.line_text, "\u{e9}\u{e9} #");
    assert_eq!(shown.indicator, "   ^");
}

#[test]
fn empty_span_gets_one_caret() {
    let shown = diagnose("abc", Span { start: 3, end: 3 }, 0, 0);
    assert_eq!(shown.text, "");
    assert_eq!(shown.indicator, "   ^");
    assert_eq!(shown.column, 4);
}

#[test]
fn missing_line_is_shown_empty() {
    let shown = diagnose("one\ntwo\n", Span { start: 4, end: 7 }, 5, 4);
    assert_eq!(shown.line, 6);
    assert_eq!(shown.text, "two");
    assert_eq!(shown.line_text, "");
    assert_eq!(shown.indicator, "^^^");
}

#[test]
fn carriage_return_before_line_break_is_dropped() {
    let shown = diagnose("a #\r\nb\r", Span { start: 2, end: 3 }, 0, 0);
    assert_eq!(shown.line_text, "a #");
    let shown = diagnose("a #\r\nb\r", Span { start: 5, end: 6 }, 1, 5);
    assert_eq!(shown.line_text, "b\r");
}

#[test]
fn span_outside_the_text_is_cut() {
    let shown = diagnose("ab", Span { start: 7, end: 9 }, 0, 0);
    assert_eq!(shown.text, "");
    assert_eq!(shown.column, 8);
    assert_eq!(shown.line_text, "ab");
    assert_eq!(shown.indicator, "  ^^");
    let shown = diagnose("ab", Span { start: 1, end: 0 }, 0, 5);
    assert_eq!(shown.text, "");
    assert_eq!(shown.column, 1);
    assert_eq!(shown.indicator, "^");
}

#[test]
fn reports_every_lexical_failure() {
    let source = "a #\n\"open\nb";
    let found = lex_diagnostics(source);
    assert_eq!(
        found,
        vec![
            LexFailure {
                error: LexError::UnrecognizedChar,
                diagnostic: Diagnostic {
                    span: Span { start: 2, end: 3 },
                    line: 1,
                    column: 3,
                    text: "#".to_string(),
                    line_text: "a #".to_string(),
                    indicator: "  ^".to_string(),
                },
            },
            LexFailure {
                error: LexError::UnterminatedString,
                diagnostic: Diagnostic {
                    span: Span { start: 4, end: 9 },
                    line: 2,
                    column: 1,
                    text: "\"open".to_string(),
                    line_text: "\"open".to_string(),
                    indicator: "^^^^^".to_string(),
                },
            },
        ]
    );
    assert_eq!(lex_diagnostics("class A { };"), vec![]);
}

#[test]
fn finds_the_line_of_an_offset() {
    let source = "one\ntwo\n\nfour";
    assert_eq!(locate(source, 0), (0, 0));
    assert_eq!(locate(source, 3), (0, 0));
    assert_eq!(locate(source, 4), (1, 4));
    assert_eq!(locate(source, 8), (2, 8));
    assert_eq!(locate(source, 9), (3, 9));
    assert_eq!(locate(source, 13), (3, 9));
    assert_eq!(locate(source, 100), (3, 9));
}

#[test]
fn failure_behind_a_comment_of_two_lines_lies_on_the_second() {
    let found = lex_diagnostics("(*\n*)#");
    assert_eq!(
        found,
        vec![LexFailure {
            error: LexError::UnrecognizedChar,
            diagnostic: Diagnostic {
                span: Span { start: 5, end: 6 },
                line: 2,
                column: 3,
                text: "#".to_string(),
                line_text: "*)#".to_string(),
                indicator: "  ^".to_string(),
            },
        }]
    );
}

#[test]
fn failure_behind_a_continued_string_lies_on_its_last_line() {
    let found = lex_diagnostics("\"a\\\nb\" #\n");
    assert_eq!(
        found,
        vec![LexFailure {
            error: LexError::UnrecognizedChar,
            diagnostic: Diagnostic {
                span: Span { start: 7, end: 8 },
                line: 2,
                column: 4,
                text: "#".to_string(),
                line_text: "b\" #".to_string(),
                indicator: "   ^".to_string(),
            },
        }]
    );
}

#[test]
fn failures_lie_where_their_offsets_lie() {
    let source = "(* one\n two *) #\n\"open\n(* three\n\n";
    let found = lex_diagnostics(source);
    assert_eq!(found.len(), 3);
    for failure in &found {
        let span = failure.diagnostic.span;
        let (line, line_begin) = locate(source, span.start);
        assert_eq!(failure.diagnostic, diagnose(source, span, line, line_begin));
        assert_eq!(failure.diagnostic.line, line + 1);
        assert_eq!(failure.diagnostic.column, span.start - line_begin + 1);
    }
    assert_eq!(found[0].diagnostic.line, 2);
    assert_eq!(found[1].diagnostic.line, 3);
    assert_eq!(found[2].diagnostic.line, 4);
    assert_eq!(found[2].error, LexError::UnterminatedComment);
}

#[test]
fn span_is_shown_in_the_line_on_which_it_starts() {
    let source = "(*\n*)#\n\tx ##\n";
    let first = diagnose_span(source, Span { start: 5, end: 6 });
    assert_eq!(first.line, 2);
    assert_eq!(first.column, 3);
    assert_eq!(first.line_text, "*)#");
    assert_eq!(first.indicator, "  ^");
    let second = diagnose_span(source, Span { start: 10, end: 12 });
    assert_eq!(
        second,
        Diagnostic {
            span: Span { start: 10, end: 12 },
            line: 3,
            column: 4,
            text: "##".to_string(),
            line_text: "        x ##".to_string(),
            indicator: "          ^^".to_string(),
        }
    );
    assert_eq!(diagnose_span(source, Span { start: 0, end: 2 }).line, 1);
}
