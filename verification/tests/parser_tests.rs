use cool_syntax::ast::{
    AttributeFeature, CaseBranch, Class, Expr, Feature, Formal, LetBinding, MethodFeature, Program,
};
use cool_syntax::program::{parse_expression, parse_program, parse_source, ParseError};
use cool_syntax::lexer::tokenize;
use cool_syntax::token::{Span, Token, TokenKind};

fn expression(source: &str) -> Result<Expr, Vec<ParseError>> {
    parse_expression(&tokenize(source), source.len())
}

fn num(value: i32) -> Box<Expr> {
    Box::new(Expr::Integer(value))
}

fn id(name: &str) -> Expr {
    Expr::Id(name.to_string())
}

#[test]
fn parses_class_with_one_method() {
    let program = parse_source("class A { foo(): Int { 1 + 2 }; };").unwrap();
    let expected = Program {
        classes: vec![Class {
            name: "A".to_string(),
            parent: None,
            features: vec![Feature::Method(MethodFeature {
                name: "foo".to_string(),
                formals: vec![],
                return_type: "Int".to_string(),
                body: Expr::Plus(num(1), num(2)),
            })],
        }],
    };
    assert_eq!(program, expected);
}

#[test]
fn parses_class_with_parent_and_attribute() {
    let program = parse_source("class B inherits A { x : Int <- 5; };").unwrap();
    let expected = Program {
        classes: vec![Class {
            name: "B".to_string(),
            parent: Some("A".to_string()),
            features: vec![Feature::Attribute(AttributeFeature {
                name: "x".to_string(),
                attr_type: "Int".to_string(),
                init: Some(Expr::Integer(5)),
            })],
        }],
    };
    assert_eq!(program, expected);
}

#[test]
fn parses_conditional() {
    let parsed = expression("if true then 1 else 2 fi").unwrap();
    let expected = Expr::If {
        cond: Box::new(Expr::True),
        then_branch: num(1),
        else_branch: num(2),
    };
    assert_eq!(parsed, expected);
}

#[test]
fn multiplication_binds_tighter_than_addition() {
    let parsed = expression("1 + 2 * 3").unwrap();
    assert_eq!(parsed, Expr::Plus(num(1), Box::new(Expr::Times(num(2), num(3)))));
    assert_ne!(parsed, Expr::Times(Box::new(Expr::Plus(num(1), num(2))), num(3)));
}

#[test]
fn binary_operators_group_to_the_left() {
    assert_eq!(
        expression("1 - 2 + 3").unwrap(),
        Expr::Plus(Box::new(Expr::Minus(num(1), num(2))), num(3))
    );
    assert_eq!(
        expression("8 / 4 * 2").unwrap(),
        Expr::Times(Box::new(Expr::Divide(num(8), num(4))), num(2))
    );
    assert_eq!(
        expression("1 < 2 = 3 <= 4").unwrap(),
        Expr::Le(Box::new(Expr::Eq(Box::new(Expr::Lt(num(1), num(2))), num(3))), num(4))
    );
}

#[test]
fn comparison_binds_looser_than_addition() {
    assert_eq!(
        expression("1 + 2 < 3 * 4").unwrap(),
        Expr::Lt(Box::new(Expr::Plus(num(1), num(2))), Box::new(Expr::Times(num(3), num(4))))
    );
}

#[test]
fn both_negations_build_not() {
    assert_eq!(
        expression("not ~ x").unwrap(),
        Expr::Not(Box::new(Expr::Not(Box::new(id("x")))))
    );
    assert_eq!(
        expression("~ 1 + 2").unwrap(),
        Expr::Plus(Box::new(Expr::Not(num(1))), num(2))
    );
}

#[test]
fn parentheses_leave_no_node() {
    assert_eq!(
        expression("(1 + 2) * 3").unwrap(),
        Expr::Times(Box::new(Expr::Plus(num(1), num(2))), num(3))
    );
}

#[test]
fn parses_dispatch_chain() {
    let parsed = expression("a.f(1, 2)@B.g()").unwrap();
    let inner = Expr::Dispatch {
        expr: Box::new(id("a")),
        static_type: None,
        method: "f".to_string(),
        args: vec![Expr::Integer(1), Expr::Integer(2)],
    };
    let expected = Expr::Dispatch {
        expr: Box::new(inner),
        static_type: Some("B".to_string()),
        method: "g".to_string(),
        args: vec![],
    };
    assert_eq!(parsed, expected);
}

#[test]
fn call_is_an_atom_and_takes_dispatch() {
    let parsed = expression("f(x).g()").unwrap();
    let call = Expr::FuncCall { name: "f".to_string(), args: vec![id("x")] };
    let expected = Expr::Dispatch {
        expr: Box::new(call),
        static_type: None,
        method: "g".to_string(),
        args: vec![],
    };
    assert_eq!(parsed, expected);
}

#[test]
fn arguments_may_end_with_a_comma() {
    assert_eq!(
        expression("f(1, 2,)").unwrap(),
        Expr::FuncCall { name: "f".to_string(), args: vec![Expr::Integer(1), Expr::Integer(2)] }
    );
    assert_eq!(
        expression("f()").unwrap(),
        Expr::FuncCall { name: "f".to_string(), args: vec![] }
    );
    assert!(expression("f(,)").is_err());
}

#[test]
fn formals_may_not_end_with_a_comma() {
    assert!(parse_source("class A { f(a: Int, b: Bool): Int { a }; };").is_ok());
    assert!(parse_source("class A { f(a: Int,): Int { a }; };").is_err());
}

#[test]
fn formals_keep_their_order() {
    let program = parse_source("class A { f(a: Int, b: Bool, c: SELF_TYPE): Int { a }; };").unwrap();
    let Feature::Method(method) = &program.classes[0].features[0] else {
        panic!("not a method");
    };
    assert_eq!(
        method.formals,
        vec![
            Formal { name: "a".to_string(), typ: "Int".to_string() },
            Formal { name: "b".to_string(), typ: "Bool".to_string() },
            Formal { name: "c".to_string(), typ: "SELF_TYPE".to_string() },
        ]
    );
}

#[test]
fn classes_and_features_keep_their_order() {
    let source = "class C { z : Int; a() : Int { 1 }; m : Bool; };\nclass A { };\nclass B inherits C { };";
    let program = parse_source(source).unwrap();
    let names: Vec<&str> = program.classes.iter().map(|c| c.name.as_str()).collect();
    assert_eq!(names, vec!["C", "A", "B"]);
    let features: Vec<&str> = program.classes[0]
        .features
        .iter()
        .map(|f| match f {
            Feature::Method(m) => m.name.as_str(),
            Feature::Attribute(a) => a.name.as_str(),
        })
        .collect();
    assert_eq!(features, vec!["z", "a", "m"]);
}

#[test]
fn block_needs_an_expression() {
    assert!(expression("{ }").is_err());
    assert_eq!(expression("{ 1 }").unwrap(), Expr::Block(vec![Expr::Integer(1)]));
}

#[test]
fn block_takes_dot_and_semicolon_as_separators() {
    assert_eq!(
        expression("{ 1; x . 3; }").unwrap(),
        Expr::Block(vec![Expr::Integer(1), id("x"), Expr::Integer(3)])
    );
}

#[test]
fn parses_let_with_several_bindings() {
    let parsed = expression("let x : Int <- 1, y : Bool in x").unwrap();
    let expected = Expr::Let {
        bindings: vec![
            LetBinding { name: "x".to_string(), typ: "Int".to_string(), init: Some(Expr::Integer(1)) },
            LetBinding { name: "y".to_string(), typ: "Bool".to_string(), init: None },
        ],
        body: Box::new(id("x")),
    };
    assert_eq!(parsed, expected);
    assert!(expression("let x : Int, in x").is_err());
    assert!(expression("let in x").is_err());
}

#[test]
fn let_body_reaches_as_far_as_it_can() {
    assert_eq!(
        expression("let x : Int in x + 1").unwrap(),
        Expr::Let {
            bindings: vec![LetBinding { name: "x".to_string(), typ: "Int".to_string(), init: None }],
            body: Box::new(Expr::Plus(Box::new(id("x")), num(1))),
        }
    );
}

#[test]
fn parses_case_with_trailing_semicolon() {
    let parsed = expression("case x of a : Int => 1; b : Object => 2; esac").unwrap();
    let expected = Expr::Case {
        expr: Box::new(id("x")),
        branches: vec![
            CaseBranch { name: "a".to_string(), typ: "Int".to_string(), expr: Expr::Integer(1) },
            CaseBranch { name: "b".to_string(), typ: "Object".to_string(), expr: Expr::Integer(2) },
        ],
    };
    assert_eq!(parsed, expected);
    assert!(expression("case x of esac").is_err());
}

#[test]
fn parses_while_new_isvoid_and_assignment() {
    assert_eq!(
        expression("while not done loop i <- i + 1 pool").unwrap(),
        Expr::While {
            cond: Box::new(Expr::Not(Box::new(id("done")))),
            body: Box::new(Expr::Assign {
                name: "i".to_string(),
                expr: Box::new(Expr::Plus(Box::new(id("i")), num(1))),
            }),
        }
    );
    assert_eq!(expression("new SELF_TYPE").unwrap(), Expr::New("SELF_TYPE".to_string()));
    assert_eq!(
        expression("isvoid a + b").unwrap(),
        Expr::IsVoid(Box::new(Expr::Plus(Box::new(id("a")), Box::new(id("b")))))
    );
}

#[test]
fn self_is_an_identifier_that_cannot_be_assigned() {
    assert_eq!(
        expression("self.f()").unwrap(),
        Expr::Dispatch {
            expr: Box::new(id("self")),
            static_type: None,
            method: "f".to_string(),
            args: vec![],
        }
    );
    assert!(expression("self <- 1").is_err());
}

#[test]
fn string_literal_keeps_its_quotes() {
    assert_eq!(
        expression(r#""a\nb""#).unwrap(),
        Expr::String(r#""a\nb""#.to_string())
    );
}

#[test]
fn comments_are_passed_where_the_grammar_allows() {
    let source = "-- first\nclass A {\n  (* about foo *) foo() : Int (* body *) { (* one *) 1 -- end\n + (* two *) 2 };\n};\n(* last *)";
    let program = parse_source(source).unwrap();
    let Feature::Method(method) = &program.classes[0].features[0] else {
        panic!("not a method");
    };
    assert_eq!(method.body, Expr::Plus(num(1), num(2)));
    assert!(parse_source("class (* name *) A { };").is_err());
}

#[test]
fn empty_text_is_an_empty_program() {
    assert_eq!(parse_source("").unwrap(), Program { classes: vec![] });
    assert_eq!(parse_source("  -- nothing\n").unwrap(), Program { classes: vec![] });
}

#[test]
fn reports_the_furthest_token() {
    let source = "class A { foo(): Int { 1 + }; };";
    let errors = parse_source(source).unwrap_err();
    assert_eq!(errors.len(), 1);
    match &errors[0] {
        ParseError::UnexpectedToken { expected, found, span } => {
            assert_eq!(*found, Token::RightBrace);
            assert_eq!(*span, Span { start: 27, end: 28 });
            assert_eq!(&source[span.start..span.end], "}");
            assert!(expected.contains(&TokenKind::Integer));
            assert!(expected.contains(&TokenKind::LeftParen));
            assert!(expected.contains(&TokenKind::Not));
            assert!(!expected.contains(&TokenKind::RightBrace));
            let mut seen = expected.clone();
            seen.dedup();
            let mut sorted: Vec<String> = expected.iter().map(|k| format!("{:?}", k)).collect();
            sorted.sort();
            sorted.dedup();
            assert_eq!(sorted.len(), expected.len());
            assert_eq!(seen.len(), expected.len());
        }
        other => panic!("unexpected error {:?}", other),
    }
}

#[test]
fn reports_exact_expectations() {
    let errors = parse_source("class a").unwrap_err();
    assert_eq!(
        errors,
        vec![ParseError::UnexpectedToken {
            expected: vec![TokenKind::TypeIdentifier, TokenKind::SelfType],
            found: Token::ObjectIdentifier("a".to_string()),
            span: Span { start: 6, end: 7 },
        }]
    );
    let errors = parse_source("class A inherits B { } x").unwrap_err();
    assert_eq!(
        errors,
        vec![ParseError::UnexpectedToken {
            expected: vec![TokenKind::Semicolon],
            found: Token::ObjectIdentifier("x".to_string()),
            span: Span { start: 23, end: 24 },
        }]
    );
}

#[test]
fn reports_the_end_of_the_text() {
    let source = "class A {";
    let errors = parse_source(source).unwrap_err();
    assert_eq!(
        errors,
        vec![ParseError::UnexpectedEnd {
            expected: vec![TokenKind::ObjectIdentifier, TokenKind::RightBrace],
            span: Span { start: 9, end: 9 },
        }]
    );
}

#[test]
fn text_after_the_last_class_is_an_error() {
    let errors = parse_source("class A { }; 5").unwrap_err();
    assert_eq!(
        errors,
        vec![ParseError::UnexpectedToken {
            expected: vec![TokenKind::Class, TokenKind::EndOfInput],
            found: Token::Integer(5),
            span: Span { start: 13, end: 14 },
        }]
    );
}

#[test]
fn lexical_failure_reaches_the_parser_as_error_token() {
    let source = "class A { x : Int <- #; };";
    let tokens = tokenize(source);
    assert!(tokens.iter().any(|t| t.token == Token::Error));
    let errors = parse_program(&tokens, source.len()).unwrap_err();
    match &errors[0] {
        ParseError::UnexpectedToken { found, span, .. } => {
            assert_eq!(*found, Token::Error);
            assert_eq!(&source[span.start..span.end], "#");
        }
        other => panic!("unexpected error {:?}", other),
    }
}

#[test]
fn expression_must_reach_the_end() {
    let errors = expression("1 2").unwrap_err();
    match &errors[0] {
        ParseError::UnexpectedToken { expected, found, span } => {
            assert_eq!(*found, Token::Integer(2));
            assert_eq!(*span, Span { start: 2, end: 3 });
            assert!(expected.contains(&TokenKind::EndOfInput));
            assert!(expected.contains(&TokenKind::Plus));
            assert!(expected.contains(&TokenKind::Dot));
        }
        other => panic!("unexpected error {:?}", other),
    }
    assert!(expression("").is_err());
}

#[test]
fn incomplete_dispatch_is_not_taken() {
    assert_eq!(
        expression("{ x.y }").unwrap(),
        Expr::Block(vec![id("x"), id("y")])
    );
}

#[test]
fn method_needs_its_semicolon() {
    assert!(parse_source("class A { f() : Int { 1 } };").is_err());
    assert!(parse_source("class A { f() : Int { 1 }; }").is_err());
}

#[test]
fn copy_of_a_tree_equals_the_tree() {
    let source = "class A inherits B {\n  x : Int <- 1;\n  f(a : Int, b : Bool) : Object {\n    { let y : Int <- a + 1, z : String in case y of n : Int => self@B.g(n, \"s\"); esac; while not b loop x <- ~x pool; if isvoid x then new A else f(1, true) fi; }\n  };\n};";
    let program = parse_source(source).unwrap();
    let copy = program.clone();
    assert_eq!(copy, program);
    assert_eq!(copy.classes[0].features.len(), 2);
}

#[test]
fn builders_build_the_nodes() {
    let one = || Expr::integer(1);
    assert_eq!(one(), Expr::Integer(1));
    assert_eq!(Expr::id("x".to_string()), id("x"));
    assert_eq!(Expr::string("\"s\"".to_string()), Expr::String("\"s\"".to_string()));
    assert_eq!(Expr::truth(true), Expr::True);
    assert_eq!(Expr::truth(false), Expr::False);
    assert_eq!(Expr::negate(one()), Expr::Not(num(1)));
    assert_eq!(Expr::is_void(one()), Expr::IsVoid(num(1)));
    assert_eq!(Expr::create("A".to_string()), Expr::New("A".to_string()));
    assert_eq!(
        Expr::assign("x".to_string(), one()),
        Expr::Assign { name: "x".to_string(), expr: num(1) }
    );
    assert_eq!(
        Expr::call("f".to_string(), vec![one()]),
        Expr::FuncCall { name: "f".to_string(), args: vec![Expr::Integer(1)] }
    );
    assert_eq!(
        Expr::dispatch(id("a"), Some("B".to_string()), "f".to_string(), vec![]),
        Expr::Dispatch {
            expr: Box::new(id("a")),
            static_type: Some("B".to_string()),
            method: "f".to_string(),
            args: vec![],
        }
    );
    assert_eq!(
        Expr::conditional(Expr::True, one(), Expr::integer(2)),
        Expr::If { cond: Box::new(Expr::True), then_branch: num(1), else_branch: num(2) }
    );
    assert_eq!(
        Expr::repeat(Expr::False, one()),
        Expr::While { cond: Box::new(Expr::False), body: num(1) }
    );
    assert_eq!(Expr::block(vec![one()]), Expr::Block(vec![Expr::Integer(1)]));
    assert_eq!(
        Expr::bind(vec![], one()),
        Expr::Let { bindings: vec![], body: num(1) }
    );
    assert_eq!(
        Expr::select(one(), vec![]),
        Expr::Case { expr: num(1), branches: vec![] }
    );
}

#[test]
fn error_token_is_taken_nowhere() {
    let source = "class A inherits B {\n  x : Int <- 1;\n  f(a : Int, b : Bool) : Object {\n    { let y : Int <- a + 1, z : String in case y of n : Int => self@B.g(n, \"s\"); esac; while not b loop x <- ~x pool; if isvoid x then new A else f(1, true) fi; }\n  };\n};";
    let tokens = tokenize(source);
    assert!(parse_program(&tokens, source.len()).is_ok());
    for at in 0..=tokens.len() {
        let mut damaged = tokenize(source);
        let span = Span { start: 0, end: 0 };
        damaged.insert(at, cool_syntax::token::SpannedToken { token: Token::Error, span });
        assert!(parse_program(&damaged, source.len()).is_err());
        let mut replaced = tokenize(source);
        if at < replaced.len() {
            replaced[at].token = Token::Error;
            assert!(parse_program(&replaced, source.len()).is_err());
        }
    }
    let text = "if a < b then f(1, 2) else { x <- 3; y.g() } fi";
    let tokens = tokenize(text);
    assert!(parse_expression(&tokens, text.len()).is_ok());
    for at in 0..tokens.len() {
        let mut replaced = tokenize(text);
        replaced[at].token = Token::Error;
        assert!(parse_expression(&replaced, text.len()).is_err());
    }
}

#[test]
fn text_with_a_lexical_failure_is_no_program() {
    assert!(parse_source("class A { };").is_ok());
    assert!(parse_source("class A { }; #").is_err());
    assert!(parse_source("class A { }; (* open").is_err());
    assert!(parse_source("class A { x : String <- \"open\n; };").is_err());
    assert!(parse_source("class A { x : Int <- 99999999999; };").is_err());
}
