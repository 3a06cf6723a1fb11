use cool_syntax::ast::{
    AttributeFeature, CaseBranch, Class, Expr, Feature, Formal, LetBinding, MethodFeature, Program,
};
use cool_syntax::lexer::tokenize;
use cool_syntax::program::{parse_expression, parse_program, parse_source};
use cool_syntax::token::{Span, Token};
use cool_syntax::writer::{placed, write_expression, write_program};

/// A small generator of numbers, so that the trees below are the same in
/// every run.
struct Numbers(u64);

impl Numbers {
    fn next(&mut self, below: u64) -> u64 {
        self.0 = self.0.wrapping_mul(6364136223846793005).wrapping_add(1442695040888963407);
        (self.0 >> 33) % below
    }
}

fn name(numbers: &mut Numbers) -> String {
    ["x", "y", "count", "self", "f_1"][numbers.next(5) as usize].to_string()
}

fn some_type(numbers: &mut Numbers) -> String {
    ["Int", "Object", "A", "SELF_TYPE", "Main"][numbers.next(5) as usize].to_string()
}

fn list(numbers: &mut Numbers, depth: u32, least: u64) -> Vec<Expr> {
    let n = least + numbers.next(3);
    (0..n).map(|_| tree(numbers, depth)).collect()
}

fn boxed(numbers: &mut Numbers, depth: u32) -> Box<Expr> {
    Box::new(tree(numbers, depth))
}

/// A tree with every kind of node but `Paren`, at most `depth` nodes deep.
fn tree(numbers: &mut Numbers, depth: u32) -> Expr {
    if depth == 0 {
        return match numbers.next(6) {
            0 => Expr::Integer(numbers.next(1000) as i32),
            1 => Expr::String("\"text\"".to_string()),
            2 => Expr::True,
            3 => Expr::False,
            4 => Expr::New(some_type(numbers)),
            _ => Expr::Id(name(numbers)),
        };
    }
    let d = depth - 1;
    match numbers.next(18) {
        0 => Expr::Assign { name: name(numbers), expr: boxed(numbers, d) },
        1 => Expr::Dispatch {
            expr: boxed(numbers, d),
            static_type: if numbers.next(2) == 0 { None } else { Some(some_type(numbers)) },
            method: name(numbers),
            args: list(numbers, d, 0),
        },
        2 => Expr::FuncCall { name: name(numbers), args: list(numbers, d, 0) },
        3 => Expr::If {
            cond: boxed(numbers, d),
            then_branch: boxed(numbers, d),
            else_branch: boxed(numbers, d),
        },
        4 => Expr::While { cond: boxed(numbers, d), body: boxed(numbers, d) },
        5 => Expr::Block(list(numbers, d, 1)),
        6 => {
            let n = 1 + numbers.next(3);
            let bindings = (0..n)
                .map(|_| LetBinding {
                    name: name(numbers),
                    typ: some_type(numbers),
                    init: if numbers.next(2) == 0 { None } else { Some(tree(numbers, d)) },
                })
                .collect();
            Expr::Let { bindings, body: boxed(numbers, d) }
        }
        7 => {
            let n = 1 + numbers.next(3);
            let branches = (0..n)
                .map(|_| CaseBranch {
                    name: name(numbers),
                    typ: some_type(numbers),
                    expr: tree(numbers, d),
                })
                .collect();
            Expr::Case { expr: boxed(numbers, d), branches }
        }
        8 => Expr::IsVoid(boxed(numbers, d)),
        9 => Expr::Plus(boxed(numbers, d), boxed(numbers, d)),
        10 => Expr::Minus(boxed(numbers, d), boxed(numbers, d)),
        11 => Expr::Times(boxed(numbers, d), boxed(numbers, d)),
        12 => Expr::Divide(boxed(numbers, d), boxed(numbers, d)),
        13 => Expr::Lt(boxed(numbers, d), boxed(numbers, d)),
        14 => Expr::Le(boxed(numbers, d), boxed(numbers, d)),
        15 => Expr::Eq(boxed(numbers, d), boxed(numbers, d)),
        16 => Expr::Not(boxed(numbers, d)),
        _ => tree(numbers, 0),
    }
}

fn class(numbers: &mut Numbers) -> Class {
    let n = numbers.next(4);
    let features = (0..n)
        .map(|_| {
            if numbers.next(2) == 0 {
                let formals = (0..numbers.next(4))
                    .map(|_| Formal { name: name(numbers), typ: some_type(numbers) })
                    .collect();
                Feature::Method(MethodFeature {
                    name: name(numbers),
                    formals,
                    return_type: some_type(numbers),
                    body: tree(numbers, 3),
                })
            } else {
                Feature::Attribute(AttributeFeature {
                    name: name(numbers),
                    attr_type: some_type(numbers),
                    init: if numbers.next(2) == 0 { None } else { Some(tree(numbers, 2)) },
                })
            }
        })
        .collect();
    Class {
        name: some_type(numbers),
        parent: if numbers.next(2) == 0 { None } else { Some(some_type(numbers)) },
        features,
    }
}

/// The tokens as a text, with a blank between every two.
fn text_of(tokens: &[Token]) -> String {
    let words: Vec<String> = tokens.iter().map(|t| t.text()).collect();
    words.join(" ")
}

#[test]
fn writes_a_sum_within_parentheses() {
    let sum = Expr::Plus(Box::new(Expr::Integer(1)), Box::new(Expr::Integer(2)));
    assert_eq!(
        write_expression(&sum),
        vec![
            Token::LeftParen,
            Token::LeftParen,
            Token::Integer(1),
            Token::RightParen,
            Token::Plus,
            Token::LeftParen,
            Token::Integer(2),
            Token::RightParen,
            Token::RightParen,
        ]
    );
}

#[test]
fn writes_a_class_with_its_parts() {
    let program = Program {
        classes: vec![Class {
            name: "B".to_string(),
            parent: Some("A".to_string()),
            features: vec![
                Feature::Attribute(AttributeFeature {
                    name: "x".to_string(),
                    attr_type: "Int".to_string(),
                    init: None,
                }),
                Feature::Method(MethodFeature {
                    name: "f".to_string(),
                    formals: vec![
                        Formal { name: "a".to_string(), typ: "Int".to_string() },
                        Formal { name: "b".to_string(), typ: "Bool".to_string() },
                    ],
                    return_type: "Int".to_string(),
                    body: Expr::Id("a".to_string()),
                }),
            ],
        }],
    };
    let tokens = write_program(&program);
    assert_eq!(
        text_of(&tokens),
        "class B inherits A { x : Int ; f ( a : Int , b : Bool ) : Int { ( a ) } ; } ;"
    );
}

#[test]
fn writes_each_kind_of_node() {
    let one = || Box::new(Expr::Integer(1));
    let cases: Vec<(Expr, &str)> = vec![
        (Expr::Assign { name: "x".to_string(), expr: one() }, "( x <- ( 1 ) )"),
        (
            Expr::Dispatch {
                expr: one(),
                static_type: None,
                method: "f".to_string(),
                args: vec![Expr::True, Expr::False],
            },
            "( ( 1 ) . f ( ( true ) , ( false ) ) )",
        ),
        (
            Expr::Dispatch {
                expr: one(),
                static_type: Some("A".to_string()),
                method: "f".to_string(),
                args: vec![],
            },
            "( ( 1 ) @ A . f ( ) )",
        ),
        (Expr::FuncCall { name: "f".to_string(), args: vec![Expr::Integer(2)] }, "( f ( ( 2 ) ) )"),
        (
            Expr::If { cond: one(), then_branch: one(), else_branch: one() },
            "( if ( 1 ) then ( 1 ) else ( 1 ) fi )",
        ),
        (Expr::While { cond: one(), body: one() }, "( while ( 1 ) loop ( 1 ) pool )"),
        (Expr::Block(vec![Expr::Integer(1), Expr::Integer(2)]), "( { ( 1 ) ; ( 2 ) } )"),
        (
            Expr::Let {
                bindings: vec![
                    LetBinding { name: "a".to_string(), typ: "Int".to_string(), init: None },
                    LetBinding {
                        name: "b".to_string(),
                        typ: "Int".to_string(),
                        init: Some(Expr::Integer(3)),
                    },
                ],
                body: one(),
            },
            "( let a : Int , b : Int <- ( 3 ) in ( 1 ) )",
        ),
        (
            Expr::Case {
                expr: one(),
                branches: vec![
                    CaseBranch { name: "a".to_string(), typ: "Int".to_string(), expr: Expr::True },
                    CaseBranch { name: "b".to_string(), typ: "A".to_string(), expr: Expr::False },
                ],
            },
            "( case ( 1 ) of a : Int => ( true ) ; b : A => ( false ) esac )",
        ),
        (Expr::New("A".to_string()), "( new A )"),
        (Expr::IsVoid(one()), "( isvoid ( 1 ) )"),
        (Expr::Plus(one(), one()), "( ( 1 ) + ( 1 ) )"),
        (Expr::Minus(one(), one()), "( ( 1 ) - ( 1 ) )"),
        (Expr::Times(one(), one()), "( ( 1 ) * ( 1 ) )"),
        (Expr::Divide(one(), one()), "( ( 1 ) / ( 1 ) )"),
        (Expr::Lt(one(), one()), "( ( 1 ) < ( 1 ) )"),
        (Expr::Le(one(), one()), "( ( 1 ) <= ( 1 ) )"),
        (Expr::Eq(one(), one()), "( ( 1 ) = ( 1 ) )"),
        (Expr::Not(one()), "( not ( 1 ) )"),
        (Expr::Paren(one()), "( ( 1 ) )"),
        (Expr::Id("x".to_string()), "( x )"),
        (Expr::String("\"s\"".to_string()), "( \"s\" )"),
    ];
    for (tree, text) in cases {
        assert_eq!(text_of(&write_expression(&tree)), text);
    }
}

#[test]
fn empty_program_is_written_as_nothing() {
    assert_eq!(write_program(&Program { classes: vec![] }), vec![]);
}

#[test]
fn placed_tokens_keep_their_order() {
    let stream = placed(&vec![Token::If, Token::Integer(7), Token::Fi]);
    assert_eq!(stream.len(), 3);
    assert_eq!(stream[0].token, Token::If);
    assert_eq!(stream[1].token, Token::Integer(7));
    assert_eq!(stream[2].token, Token::Fi);
    assert_eq!(stream[0].span, Span { start: 0, end: 1 });
    assert_eq!(stream[2].span, Span { start: 2, end: 3 });
}

#[test]
fn written_expressions_read_back() {
    let mut numbers = Numbers(7);
    for round in 0..300 {
        let e = tree(&mut numbers, round % 5);
        let tokens = write_expression(&e);
        let stream = placed(&tokens);
        assert_eq!(parse_expression(&stream, stream.len()), Ok(e));
    }
}

#[test]
fn written_programs_read_back() {
    let mut numbers = Numbers(11);
    for _ in 0..100 {
        let classes = (0..numbers.next(4)).map(|_| class(&mut numbers)).collect();
        let program = Program { classes };
        let tokens = write_program(&program);
        let stream = placed(&tokens);
        assert_eq!(parse_program(&stream, stream.len()), Ok(program));
    }
}

#[test]
fn parsed_programs_read_back() {
    let sources = [
        "class A { foo(): Int { 1 + 2 }; };",
        "class B inherits A { x : Int <- 5; };",
        "class A inherits B {\n  x : Int <- 1;\n  f(a : Int, b : Bool) : Object {\n    { let y : Int <- a + 1, z : String in case y of n : Int => self@B.g(n, \"s\"); esac; while not b loop x <- ~x pool; if isvoid x then new A else f(1, true) fi; }\n  };\n};",
        "class A { f() : SELF_TYPE { (1 + 2) * 3 - 4 / (5 < 6) }; }; (* end *) class C { };",
        "",
    ];
    for source in sources {
        let program = parse_source(source).unwrap();
        let tokens = write_program(&program);
        let stream = placed(&tokens);
        assert_eq!(parse_program(&stream, stream.len()), Ok(program));
    }
}

#[test]
fn written_text_reads_back() {
    let source = "class A inherits B {\n  x : Int <- 1;\n  f(a : Int, b : Bool) : Object {\n    { let y : Int <- a + 1, z : String in case y of n : Int => self@B.g(n, \"s\"); esac; while not b loop x <- ~x pool; if isvoid x then new A else f(1, true) fi; }\n  };\n};";
    let program = parse_source(source).unwrap();
    let text = text_of(&write_program(&program));
    assert_eq!(parse_source(&text), Ok(program));
    let found: Vec<Token> = tokenize(&text).into_iter().map(|t| t.token).collect();
    assert_eq!(text_of(&found), text);
}

#[test]
fn parentheses_are_not_read_back() {
    let tree = Expr::Paren(Box::new(Expr::Integer(1)));
    let stream = placed(&write_expression(&tree));
    assert_eq!(parse_expression(&stream, stream.len()), Ok(Expr::Integer(1)));
}

#[test]
fn block_without_expression_is_not_read_back() {
    let stream = placed(&write_expression(&Expr::Block(vec![])));
    assert!(parse_expression(&stream, stream.len()).is_err());
}
