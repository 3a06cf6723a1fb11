use cool_syntax::lexer::Token;

#[test]
fn test_lexer_simple() {
    let hello_world = r#"class Main inherits IO {
   main(): SELF_TYPE {
	out_string("Hello, World.\n")
   };
};
"#;

    let mut lexer = Token::lexer(hello_world);
    while let Some(token) = lexer.next() {
        let span = lexer.span();
        match token {
            Ok(t) => {
                println!(
                    "Token: {:?}, Span: {:?}, Text: '{}'",
                    t,
                    span,
                    &hello_world[span.start..span.end]
                );
            }
            Err(_) => {
                println!(
                    "Failed to match at span {:?}, Text: '{}'",
                    span,
                    &hello_world[span.start..span.end]
                );
                panic!("unmatched item at span {:?}", span);
            }
        }
    }

    assert_eq!(
        lexer.extras().0,
        5,
        "Expected 5 lines, got {}",
        lexer.extras().0
    );
}
