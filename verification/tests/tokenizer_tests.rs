use cool_syntax::lexical::LexError;
use cool_syntax::lexer::{tokenize, Lexer};
use cool_syntax::token::{Span, SpannedToken, Token, TokenKind};

fn all(source: &str) -> Vec<Result<Token, LexError>> {
    let mut lexer = Token::lexer(source);
    let mut found = Vec::new();
    while let Some(token) = lexer.next() {
        found.push(token);
    }
    found
}

fn word(source: &str) -> Token {
    let tokens = all(source);
    assert_eq!(tokens.len(), 1, "{:?}", tokens);
    tokens.into_iter().next().unwrap().unwrap()
}

#[test]
fn reserved_words_ignore_case() {
    assert_eq!(word("class"), Token::Class);
    assert_eq!(word("CLASS"), Token::Class);
    assert_eq!(word("Class"), Token::Class);
    assert_eq!(word("cLaSs"), Token::Class);
    assert_eq!(word("Else"), Token::Else);
    assert_eq!(word("FI"), Token::Fi);
    assert_eq!(word("iF"), Token::If);
    assert_eq!(word("IN"), Token::In);
    assert_eq!(word("Inherits"), Token::Inherits);
    assert_eq!(word("IsVoid"), Token::Isvoid);
    assert_eq!(word("LET"), Token::Let);
    assert_eq!(word("Loop"), Token::Loop);
    assert_eq!(word("pOOl"), Token::Pool);
    assert_eq!(word("THEN"), Token::Then);
    assert_eq!(word("While"), Token::While);
    assert_eq!(word("CASE"), Token::Case);
    assert_eq!(word("Esac"), Token::Esac);
    assert_eq!(word("NEW"), Token::New);
    assert_eq!(word("oF"), Token::Of);
    assert_eq!(word("NOT"), Token::Not);
}

#[test]
fn longer_words_are_identifiers() {
    assert_eq!(word("classes"), Token::ObjectIdentifier("classes".to_string()));
    assert_eq!(word("Classes"), Token::TypeIdentifier("Classes".to_string()));
    assert_eq!(word("if_"), Token::ObjectIdentifier("if_".to_string()));
    assert_eq!(word("new1"), Token::ObjectIdentifier("new1".to_string()));
    assert_eq!(word("truer"), Token::ObjectIdentifier("truer".to_string()));
}

#[test]
fn truth_values_start_with_a_small_letter() {
    assert_eq!(word("tRuE"), Token::True);
    assert_eq!(word("fALSE"), Token::False);
    assert_eq!(word("True"), Token::TypeIdentifier("True".to_string()));
    assert_eq!(word("FALSE"), Token::TypeIdentifier("FALSE".to_string()));
}

#[test]
fn self_words_are_case_sensitive() {
    assert_eq!(word("self"), Token::SelfLit);
    assert_eq!(word("SELF_TYPE"), Token::SelfType);
    assert_eq!(word("Self"), Token::TypeIdentifier("Self".to_string()));
    assert_eq!(word("sELF"), Token::ObjectIdentifier("sELF".to_string()));
    assert_eq!(word("SELF_type"), Token::TypeIdentifier("SELF_type".to_string()));
    assert_eq!(word("self_type"), Token::ObjectIdentifier("self_type".to_string()));
}

#[test]
fn integers_fit_or_fail() {
    assert_eq!(word("0"), Token::Integer(0));
    assert_eq!(word("007"), Token::Integer(7));
    assert_eq!(word("2147483647"), Token::Integer(2147483647));
    assert_eq!(all("2147483648"), vec![Err(LexError::IntegerOutOfRange)]);
    assert_eq!(all("99999999999999999999999999"), vec![Err(LexError::IntegerOutOfRange)]);
    assert_eq!(
        all("12ab"),
        vec![Ok(Token::Integer(12)), Ok(Token::ObjectIdentifier("ab".to_string()))]
    );
}

#[test]
fn longest_operator_wins() {
    assert_eq!(
        all("a<-b<=c=>d<e=f"),
        vec![
            Ok(Token::ObjectIdentifier("a".to_string())),
            Ok(Token::Assign),
            Ok(Token::ObjectIdentifier("b".to_string())),
            Ok(Token::LessThanOrEqual),
            Ok(Token::ObjectIdentifier("c".to_string())),
            Ok(Token::DoubleArrow),
            Ok(Token::ObjectIdentifier("d".to_string())),
            Ok(Token::LessThan),
            Ok(Token::ObjectIdentifier("e".to_string())),
            Ok(Token::Equal),
            Ok(Token::ObjectIdentifier("f".to_string())),
        ]
    );
}

#[test]
fn every_sign_is_its_token() {
    assert_eq!(
        all("+ - * / ~ < = ( ) : @ { } ; . ,"),
        vec![
            Ok(Token::Plus),
            Ok(Token::Minus),
            Ok(Token::Multiply),
            Ok(Token::Divide),
            Ok(Token::Tilde),
            Ok(Token::LessThan),
            Ok(Token::Equal),
            Ok(Token::LeftParen),
            Ok(Token::RightParen),
            Ok(Token::Colon),
            Ok(Token::TypeId),
            Ok(Token::LeftBrace),
            Ok(Token::RightBrace),
            Ok(Token::Semicolon),
            Ok(Token::Dot),
            Ok(Token::Comma),
        ]
    );
    assert_eq!(all("*)"), vec![Ok(Token::Multiply), Ok(Token::RightParen)]);
}

#[test]
fn nested_comment_is_one_token() {
    let source = "(* (* (* x *) *) *)";
    let mut lexer = Token::lexer(source);
    assert_eq!(lexer.next(), Some(Ok(Token::Comment)));
    assert_eq!(lexer.span(), Span { start: 0, end: source.len() });
    assert_eq!(lexer.slice(), source);
    assert_eq!(lexer.next(), None);
}

#[test]
fn open_comment_takes_the_rest() {
    let source = "x (* no close";
    let mut lexer = Token::lexer(source);
    assert_eq!(lexer.next(), Some(Ok(Token::ObjectIdentifier("x".to_string()))));
    assert_eq!(lexer.next(), Some(Err(LexError::UnterminatedComment)));
    assert_eq!(lexer.span(), Span { start: 2, end: source.len() });
    assert_eq!(lexer.next(), None);
    assert_eq!(lexer.next(), None);
    assert_eq!(all("(* (* closed once *)"), vec![Err(LexError::UnterminatedComment)]);
}

#[test]
fn comment_with_other_letters_inside() {
    let source = "(* caf\u{e9} \u{2603} *) x";
    let mut lexer = Token::lexer(source);
    assert_eq!(lexer.next(), Some(Ok(Token::Comment)));
    assert_eq!(lexer.slice(), "(* caf\u{e9} \u{2603} *)");
    assert_eq!(lexer.next(), Some(Ok(Token::ObjectIdentifier("x".to_string()))));
}

#[test]
fn line_comment_stops_before_the_line_break() {
    let mut lexer = Token::lexer("1 -- one\n2");
    assert_eq!(lexer.next(), Some(Ok(Token::Integer(1))));
    assert_eq!(lexer.next(), Some(Ok(Token::Comment)));
    assert_eq!(lexer.slice(), "-- one");
    assert_eq!(lexer.extras(), (0, 0));
    assert_eq!(lexer.next(), Some(Ok(Token::Integer(2))));
    assert_eq!(lexer.extras(), (1, 9));
    assert_eq!(all("a - - b").len(), 4);
}

#[test]
fn line_break_in_string_fails_and_backslash_mends_it() {
    let broken = "\"one\ntwo\"";
    let mut lexer = Token::lexer(broken);
    assert_eq!(lexer.next(), Some(Err(LexError::UnterminatedString)));
    assert_eq!(lexer.span(), Span { start: 0, end: 4 });
    let mended = "\"one\\\ntwo\"";
    let mut lexer = Token::lexer(mended);
    assert_eq!(lexer.next(), Some(Ok(Token::String(mended.to_string()))));
    assert_eq!(lexer.span(), Span { start: 0, end: mended.len() });
    assert_eq!(lexer.next(), None);
}

#[test]
fn backslash_may_be_followed_by_blanks_before_the_line_break() {
    let source = "\"one\\ \t \ntwo\"";
    assert_eq!(all(source), vec![Ok(Token::String(source.to_string()))]);
}

#[test]
fn string_escapes() {
    assert_eq!(all(r#""a\"b""#), vec![Ok(Token::String(r#""a\"b""#.to_string()))]);
    assert_eq!(all(r#""a\\""#), vec![Ok(Token::String(r#""a\\""#.to_string()))]);
    assert_eq!(all(r#""a\1b""#), vec![Ok(Token::String(r#""a\1b""#.to_string()))]);
    assert_eq!(all("\"gr\u{fc}n\""), vec![Ok(Token::String("\"gr\u{fc}n\"".to_string()))]);
    let mut lexer = Token::lexer(r#""a\0b" x"#);
    assert_eq!(lexer.next(), Some(Err(LexError::InvalidEscape)));
    assert_eq!(lexer.span(), Span { start: 0, end: 4 });
    assert_eq!(lexer.next(), Some(Ok(Token::ObjectIdentifier("b".to_string()))));
}

#[test]
fn string_without_end_fails() {
    let mut lexer = Token::lexer("\"abc");
    assert_eq!(lexer.next(), Some(Err(LexError::UnterminatedString)));
    assert_eq!(lexer.span(), Span { start: 0, end: 4 });
    assert_eq!(lexer.next(), None);
    assert_eq!(all("\"abc\\"), vec![Err(LexError::UnterminatedString)]);
}

#[test]
fn unknown_characters_fail_one_at_a_time() {
    assert_eq!(
        all("#_x"),
        vec![
            Err(LexError::UnrecognizedChar),
            Err(LexError::UnrecognizedChar),
            Ok(Token::ObjectIdentifier("x".to_string())),
        ]
    );
    let mut lexer = Token::lexer("\u{e9}\u{2603}a");
    assert_eq!(lexer.next(), Some(Err(LexError::UnrecognizedChar)));
    assert_eq!(lexer.span(), Span { start: 0, end: 2 });
    assert_eq!(lexer.slice(), "\u{e9}");
    assert_eq!(lexer.next(), Some(Err(LexError::UnrecognizedChar)));
    assert_eq!(lexer.span(), Span { start: 2, end: 5 });
    assert_eq!(lexer.next(), Some(Ok(Token::ObjectIdentifier("a".to_string()))));
}

#[test]
fn blanks_are_skipped_and_lines_counted() {
    let mut lexer = Lexer::new(" \t\r\x0c\n\n  a\n");
    assert_eq!(lexer.extras(), (0, 0));
    assert_eq!(lexer.next(), Some(Ok(Token::ObjectIdentifier("a".to_string()))));
    assert_eq!(lexer.span(), Span { start: 8, end: 9 });
    assert_eq!(lexer.extras(), (2, 6));
    assert_eq!(lexer.next(), None);
    assert_eq!(lexer.extras(), (3, 10));
    assert_eq!(lexer.span(), Span { start: 10, end: 10 });
    assert_eq!(lexer.slice(), "");
}

#[test]
fn line_breaks_inside_tokens_are_counted() {
    let mut lexer = Token::lexer("(* a\nb *) x\ny");
    assert_eq!(lexer.next(), Some(Ok(Token::Comment)));
    assert_eq!(lexer.extras(), (0, 0));
    assert_eq!(lexer.next(), Some(Ok(Token::ObjectIdentifier("x".to_string()))));
    assert_eq!(lexer.extras(), (1, 5));
    assert_eq!(lexer.next(), Some(Ok(Token::ObjectIdentifier("y".to_string()))));
    assert_eq!(lexer.extras(), (2, 12));
    assert_eq!(lexer.next(), None);
    assert_eq!(lexer.extras(), (2, 12));
}

#[test]
fn line_break_in_continued_string_is_counted() {
    let mut lexer = Token::lexer("\"a\\\nb\" x");
    assert_eq!(lexer.next(), Some(Ok(Token::String("\"a\\\nb\"".to_string()))));
    assert_eq!(lexer.extras(), (0, 0));
    assert_eq!(lexer.next(), Some(Ok(Token::ObjectIdentifier("x".to_string()))));
    assert_eq!(lexer.span(), Span { start: 7, end: 8 });
    assert_eq!(lexer.extras(), (1, 4));
}

#[test]
fn token_stream_keeps_failures_as_error_tokens() {
    let tokens = tokenize("a # \"x\ny");
    assert_eq!(
        tokens,
        vec![
            SpannedToken {
                token: Token::ObjectIdentifier("a".to_string()),
                span: Span { start: 0, end: 1 }
            },
            SpannedToken { token: Token::Error, span: Span { start: 2, end: 3 } },
            SpannedToken { token: Token::Error, span: Span { start: 4, end: 6 } },
            SpannedToken {
                token: Token::ObjectIdentifier("y".to_string()),
                span: Span { start: 7, end: 8 }
            },
        ]
    );
    assert_eq!(tokenize(""), vec![]);
}

#[test]
fn spans_follow_one_another() {
    let source = "class Main inherits IO {\n  main() : Object { out_string(\"hi\\n\") };\n};\n";
    let tokens = tokenize(source);
    let mut last = 0;
    for token in &tokens {
        assert!(last <= token.span.start);
        assert!(token.span.start < token.span.end);
        assert!(source[last..token.span.start].chars().all(|c| " \t\r\n\x0c".contains(c)));
        last = token.span.end;
    }
    assert!(source[last..].chars().all(|c| " \t\r\n\x0c".contains(c)));
    assert_eq!(tokens.len(), 19);
}

#[test]
fn kinds_of_tokens() {
    assert_eq!(Token::Integer(3).kind(), TokenKind::Integer);
    assert_eq!(Token::String("\"s\"".to_string()).kind(), TokenKind::String);
    assert_eq!(Token::TypeId.kind(), TokenKind::TypeId);
    assert_eq!(Token::Error.kind(), TokenKind::Error);
    assert_eq!(Token::Newline.kind(), TokenKind::Newline);
}

#[test]
fn tokens_as_text() {
    assert_eq!(Token::Error.text(), "Error");
    assert_eq!(Token::Integer(0).text(), "0");
    assert_eq!(Token::Integer(1203).text(), "1203");
    assert_eq!(Token::Integer(-45).text(), "-45");
    assert_eq!(Token::Integer(i32::MAX).text(), "2147483647");
    assert_eq!(Token::Integer(i32::MIN).text(), "-2147483648");
    assert_eq!(Token::TypeIdentifier("Main".to_string()).text(), "Main");
    assert_eq!(Token::ObjectIdentifier("x".to_string()).text(), "x");
    assert_eq!(Token::String("\"s\"".to_string()).text(), "\"s\"");
    assert_eq!(Token::SelfLit.text(), "self");
    assert_eq!(Token::SelfType.text(), "SELF_TYPE");
    assert_eq!(Token::Isvoid.text(), "isvoid");
    assert_eq!(Token::Comment.text(), "Comment");
    assert_eq!(Token::LessThanOrEqual.text(), "<=");
    assert_eq!(Token::Assign.text(), "<-");
    assert_eq!(Token::DoubleArrow.text(), "=>");
    assert_eq!(Token::TypeId.text(), "@");
    assert_eq!(Token::LeftBrace.text(), "{");
    assert_eq!(Token::RightBrace.text(), "}");
    assert_eq!(Token::Newline.text(), "\n");
}

#[test]
fn clone_keeps_the_token() {
    let token = Token::TypeIdentifier("Main".to_string());
    assert_eq!(token.clone(), token);
    let spanned = SpannedToken { token: Token::Integer(4), span: Span { start: 1, end: 2 } };
    assert_eq!(spanned.clone(), spanned);
}
