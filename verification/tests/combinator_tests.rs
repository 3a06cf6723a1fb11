//! Cross-checks of the parser against the same grammar written with parser
//! combinators: both must accept the same token sequences and build the
//! same trees.

use chumsky::prelude::{any, choice, extra, just, recursive, Boxed, IterParser, Parser};
use cool_syntax::ast::{
    AttributeFeature, CaseBranch, Class, Expr, Feature, Formal, LetBinding, MethodFeature, Program,
};
use cool_syntax::program::{parse_expression, parse_program};
use cool_syntax::lexer::tokenize;
use cool_syntax::token::{Span, SpannedToken, Token};

type Rule<'s, O> = Boxed<'s, 's, &'s [Token], O, extra::Default>;

fn text_of(token: Token) -> String {
    match token {
        Token::ObjectIdentifier(s) => s,
        Token::TypeIdentifier(s) => s,
        Token::String(s) => s,
        Token::SelfType => "SELF_TYPE".to_string(),
        other => panic!("token without text: {:?}", other),
    }
}

fn number_of(token: Token) -> i32 {
    match token {
        Token::Integer(i) => i,
        other => panic!("token without value: {:?}", other),
    }
}

fn ident<'s>() -> Rule<'s, String> {
    any()
        .filter(|t: &Token| matches!(t, Token::ObjectIdentifier(_)))
        .map(text_of)
        .boxed()
}

fn type_id<'s>() -> Rule<'s, String> {
    any()
        .filter(|t: &Token| matches!(t, Token::TypeIdentifier(_) | Token::SelfType))
        .map(text_of)
        .boxed()
}

fn comments<'s>() -> Rule<'s, ()> {
    just(Token::Comment).repeated().boxed()
}

fn binary(op: Token, lhs: Expr, rhs: Expr) -> Expr {
    let (lhs, rhs) = (Box::new(lhs), Box::new(rhs));
    match op {
        Token::Multiply => Expr::Times(lhs, rhs),
        Token::Divide => Expr::Divide(lhs, rhs),
        Token::Plus => Expr::Plus(lhs, rhs),
        Token::Minus => Expr::Minus(lhs, rhs),
        Token::LessThan => Expr::Lt(lhs, rhs),
        Token::LessThanOrEqual => Expr::Le(lhs, rhs),
        Token::Equal => Expr::Eq(lhs, rhs),
        other => panic!("no operator: {:?}", other),
    }
}

fn chain<'s>(operand: Rule<'s, Expr>, first: Token, others: Vec<Token>) -> Rule<'s, Expr> {
    let mut op: Rule<'s, Token> = just(first).boxed();
    for other in others {
        op = op.or(just(other)).boxed();
    }
    operand
        .clone()
        .foldl(
            op.padded_by(comments()).then(operand).repeated(),
            |lhs, (op, rhs)| binary(op, lhs, rhs),
        )
        .boxed()
}

fn expression<'s>() -> Rule<'s, Expr> {
    recursive(|expr| {
        let expr: Rule<'s, Expr> = expr.boxed();
        let padded: Rule<'s, Expr> = expr.clone().padded_by(comments()).boxed();
        let args: Rule<'s, Vec<Expr>> = expr
            .clone()
            .separated_by(just(Token::Comma))
            .allow_trailing()
            .collect::<Vec<_>>()
            .delimited_by(just(Token::LeftParen), just(Token::RightParen))
            .boxed();
        let declaration: Rule<'s, ((String, String), Option<Expr>)> = ident()
            .then_ignore(just(Token::Colon))
            .then(type_id())
            .then(just(Token::Assign).ignore_then(expr.clone()).or_not())
            .boxed();

        let string = any()
            .filter(|t: &Token| matches!(t, Token::String(_)))
            .map(|t| Expr::String(text_of(t)));
        let integer = any()
            .filter(|t: &Token| matches!(t, Token::Integer(_)))
            .map(|t| Expr::Integer(number_of(t)));
        let isvoid = just(Token::Isvoid)
            .ignore_then(expr.clone())
            .map(|e| Expr::IsVoid(Box::new(e)));
        let assign = ident()
            .then_ignore(just(Token::Assign))
            .then(expr.clone())
            .map(|(name, e)| Expr::Assign { name, expr: Box::new(e) });
        let let_expr = just(Token::Let)
            .ignore_then(
                declaration
                    .clone()
                    .map(|((name, typ), init)| LetBinding { name, typ, init })
                    .separated_by(just(Token::Comma))
                    .at_least(1)
                    .collect::<Vec<_>>(),
            )
            .then_ignore(just(Token::In))
            .then(padded.clone())
            .map(|(bindings, body)| Expr::Let { bindings, body: Box::new(body) });
        let if_expr = just(Token::If)
            .ignore_then(padded.clone())
            .then_ignore(just(Token::Then))
            .then(padded.clone())
            .then_ignore(just(Token::Else))
            .then(padded.clone())
            .then_ignore(just(Token::Fi))
            .map(|((cond, then_branch), else_branch)| Expr::If {
                cond: Box::new(cond),
                then_branch: Box::new(then_branch),
                else_branch: Box::new(else_branch),
            });
        let while_expr = just(Token::While)
            .ignore_then(padded.clone())
            .then_ignore(just(Token::Loop))
            .then(padded.clone())
            .then_ignore(just(Token::Pool))
            .map(|(cond, body)| Expr::While { cond: Box::new(cond), body: Box::new(body) });
        let case_branch = ident()
            .then_ignore(just(Token::Colon))
            .then(type_id())
            .then_ignore(just(Token::DoubleArrow))
            .then(expr.clone())
            .map(|((name, typ), expr)| CaseBranch { name, typ, expr });
        let case_expr = just(Token::Case)
            .ignore_then(padded.clone())
            .then_ignore(just(Token::Of))
            .then(
                case_branch
                    .separated_by(just(Token::Semicolon))
                    .allow_trailing()
                    .at_least(1)
                    .collect::<Vec<_>>(),
            )
            .then_ignore(just(Token::Esac))
            .map(|(expr, branches)| Expr::Case { expr: Box::new(expr), branches });
        let call = ident()
            .then(args.clone())
            .map(|(name, args)| Expr::FuncCall { name, args });
        let new_expr = just(Token::New).ignore_then(type_id()).map(Expr::New);
        let block = padded
            .clone()
            .separated_by(choice((just(Token::Dot), just(Token::Semicolon))))
            .allow_trailing()
            .at_least(1)
            .collect::<Vec<_>>()
            .then_ignore(comments())
            .delimited_by(just(Token::LeftBrace), just(Token::RightBrace))
            .map(Expr::Block);
        let paren = expr
            .clone()
            .delimited_by(just(Token::LeftParen), just(Token::RightParen));

        let atom: Rule<'s, Expr> = choice((
            string.boxed(),
            integer.boxed(),
            just(Token::True).to(Expr::True).boxed(),
            just(Token::False).to(Expr::False).boxed(),
            isvoid.boxed(),
            just(Token::SelfLit).to(Expr::Id("self".to_string())).boxed(),
            assign.boxed(),
            let_expr.boxed(),
            if_expr.boxed(),
            while_expr.boxed(),
            case_expr.boxed(),
            call.boxed(),
            ident().map(Expr::Id).boxed(),
            new_expr.boxed(),
            block.boxed(),
            paren.boxed(),
        ))
        .padded_by(comments())
        .boxed();

        let dispatch = just(Token::Dot)
            .ignore_then(ident())
            .then(args.clone())
            .map(|(method, args)| (None, method, args))
            .or(just(Token::TypeId)
                .ignore_then(type_id())
                .then_ignore(just(Token::Dot))
                .then(ident())
                .then(args.clone())
                .map(|((static_type, method), args)| (Some(static_type), method, args)));
        let postfix: Rule<'s, Expr> = atom
            .foldl(dispatch.repeated(), |expr, (static_type, method, args)| Expr::Dispatch {
                expr: Box::new(expr),
                static_type,
                method,
                args,
            })
            .boxed();
        let unary: Rule<'s, Expr> = just(Token::Not)
            .or(just(Token::Tilde))
            .repeated()
            .foldr(postfix, |_, expr| Expr::Not(Box::new(expr)))
            .boxed();
        let product = chain(unary, Token::Multiply, vec![Token::Divide]);
        let sum = chain(product, Token::Plus, vec![Token::Minus]);
        chain(sum, Token::LessThan, vec![Token::LessThanOrEqual, Token::Equal])
    })
    .boxed()
}

fn whole_expression<'s>() -> Rule<'s, Expr> {
    expression().padded_by(comments()).boxed()
}

fn program<'s>() -> Rule<'s, Program> {
    let expr = expression();
    let formal = ident()
        .then_ignore(just(Token::Colon))
        .then(type_id())
        .map(|(name, typ)| Formal { name, typ });
    let method = ident()
        .then(
            formal
                .separated_by(just(Token::Comma))
                .collect::<Vec<_>>()
                .delimited_by(just(Token::LeftParen), just(Token::RightParen)),
        )
        .then_ignore(just(Token::Colon))
        .then(type_id())
        .padded_by(comments())
        .then(expr.clone().delimited_by(just(Token::LeftBrace), just(Token::RightBrace)))
        .map(|(((name, formals), return_type), body)| {
            Feature::Method(MethodFeature { name, formals, return_type, body })
        });
    let attribute = ident()
        .then_ignore(just(Token::Colon))
        .then(type_id())
        .then(just(Token::Assign).ignore_then(expr.clone()).or_not())
        .map(|((name, attr_type), init)| {
            Feature::Attribute(AttributeFeature { name, attr_type, init })
        });
    let feature = choice((method.boxed(), attribute.boxed())).then_ignore(just(Token::Semicolon));
    let class = just(Token::Class)
        .ignore_then(type_id())
        .then(just(Token::Inherits).ignore_then(type_id()).or_not())
        .then(
            feature
                .repeated()
                .collect::<Vec<_>>()
                .delimited_by(just(Token::LeftBrace), just(Token::RightBrace)),
        )
        .then_ignore(just(Token::Semicolon))
        .map(|((name, parent), features)| Class { name, parent, features });
    comments()
        .ignore_then(class)
        .repeated()
        .collect::<Vec<_>>()
        .then_ignore(comments())
        .map(|classes| Program { classes })
        .boxed()
}

fn spanned(tokens: &[Token]) -> Vec<SpannedToken> {
    tokens
        .iter()
        .enumerate()
        .map(|(i, token)| SpannedToken { token: token.clone(), span: Span { start: i, end: i + 1 } })
        .collect()
}

fn check_programs(inputs: &[Vec<Token>]) -> usize {
    let rule = program();
    let mut accepted = 0;
    for tokens in inputs {
        let ours = parse_program(&spanned(tokens), tokens.len()).ok();
        let theirs = rule.parse(&tokens[..]).into_result().ok();
        assert_eq!(ours, theirs, "on {:?}", tokens);
        if ours.is_some() {
            accepted += 1;
        }
    }
    accepted
}

fn check_expressions(inputs: &[Vec<Token>]) -> usize {
    let rule = whole_expression();
    let mut accepted = 0;
    for tokens in inputs {
        let ours = parse_expression(&spanned(tokens), tokens.len()).ok();
        let theirs = rule.parse(&tokens[..]).into_result().ok();
        assert_eq!(ours, theirs, "on {:?}", tokens);
        if ours.is_some() {
            accepted += 1;
        }
    }
    accepted
}

fn tokens_of(source: &str) -> Vec<Token> {
    tokenize(source).into_iter().map(|t| t.token).collect()
}

struct Dice(u64);

impl Dice {
    fn roll(&mut self, sides: usize) -> usize {
        self.0 = self.0.wrapping_mul(6364136223846793005).wrapping_add(1442695040888963407);
        ((self.0 >> 33) as usize) % sides
    }
}

fn name(dice: &mut Dice) -> Token {
    Token::ObjectIdentifier(["a", "b", "f"][dice.roll(3)].to_string())
}

fn some_type(dice: &mut Dice) -> Token {
    if dice.roll(4) == 0 {
        Token::SelfType
    } else {
        Token::TypeIdentifier(["A", "Int"][dice.roll(2)].to_string())
    }
}

fn maybe_comment(dice: &mut Dice, out: &mut Vec<Token>) {
    if dice.roll(8) == 0 {
        out.push(Token::Comment);
    }
}

fn write_args(dice: &mut Dice, depth: usize, out: &mut Vec<Token>) {
    out.push(Token::LeftParen);
    let count = dice.roll(3);
    for i in 0..count {
        if i > 0 {
            out.push(Token::Comma);
        }
        write_expr(dice, depth, out);
    }
    if count > 0 && dice.roll(4) == 0 {
        out.push(Token::Comma);
    }
    out.push(Token::RightParen);
}

fn write_declaration(dice: &mut Dice, depth: usize, out: &mut Vec<Token>) {
    out.push(name(dice));
    out.push(Token::Colon);
    out.push(some_type(dice));
    if dice.roll(2) == 0 {
        out.push(Token::Assign);
        write_expr(dice, depth, out);
    }
}

fn write_expr(dice: &mut Dice, depth: usize, out: &mut Vec<Token>) {
    let choice = if depth == 0 { dice.roll(5) } else { dice.roll(22) };
    let depth = depth.saturating_sub(1);
    maybe_comment(dice, out);
    match choice {
        0 => out.push(Token::Integer(dice.roll(10) as i32)),
        1 => out.push(name(dice)),
        2 => out.push(Token::True),
        3 => out.push(Token::SelfLit),
        4 => out.push(Token::String("\"s\"".to_string())),
        5 => {
            out.push([Token::Not, Token::Tilde][dice.roll(2)].clone());
            write_expr(dice, depth, out);
        }
        6 | 7 | 8 => {
            write_expr(dice, depth, out);
            maybe_comment(dice, out);
            let ops = [
                Token::Plus,
                Token::Minus,
                Token::Multiply,
                Token::Divide,
                Token::LessThan,
                Token::LessThanOrEqual,
                Token::Equal,
            ];
            out.push(ops[dice.roll(ops.len())].clone());
            write_expr(dice, depth, out);
        }
        9 => {
            write_expr(dice, depth, out);
            out.push(Token::Dot);
            out.push(name(dice));
            write_args(dice, depth, out);
        }
        10 => {
            write_expr(dice, depth, out);
            out.push(Token::TypeId);
            out.push(some_type(dice));
            out.push(Token::Dot);
            out.push(name(dice));
            write_args(dice, depth, out);
        }
        11 => {
            out.push(name(dice));
            write_args(dice, depth, out);
        }
        12 => {
            out.push(name(dice));
            out.push(Token::Assign);
            write_expr(dice, depth, out);
        }
        13 => {
            out.push(Token::If);
            write_expr(dice, depth, out);
            out.push(Token::Then);
            write_expr(dice, depth, out);
            out.push(Token::Else);
            write_expr(dice, depth, out);
            out.push(Token::Fi);
        }
        14 => {
            out.push(Token::While);
            write_expr(dice, depth, out);
            out.push(Token::Loop);
            write_expr(dice, depth, out);
            out.push(Token::Pool);
        }
        15 => {
            out.push(Token::LeftBrace);
            let count = 1 + dice.roll(3);
            for i in 0..count {
                if i > 0 {
                    out.push([Token::Semicolon, Token::Dot][dice.roll(2)].clone());
                }
                write_expr(dice, depth, out);
            }
            if dice.roll(2) == 0 {
                out.push(Token::Semicolon);
            }
            maybe_comment(dice, out);
            out.push(Token::RightBrace);
        }
        16 => {
            out.push(Token::Let);
            let count = 1 + dice.roll(2);
            for i in 0..count {
                if i > 0 {
                    out.push(Token::Comma);
                }
                write_declaration(dice, depth, out);
            }
            out.push(Token::In);
            write_expr(dice, depth, out);
        }
        17 => {
            out.push(Token::Case);
            write_expr(dice, depth, out);
            out.push(Token::Of);
            let count = 1 + dice.roll(2);
            for i in 0..count {
                if i > 0 {
                    out.push(Token::Semicolon);
                }
                out.push(name(dice));
                out.push(Token::Colon);
                out.push(some_type(dice));
                out.push(Token::DoubleArrow);
                write_expr(dice, depth, out);
            }
            if dice.roll(2) == 0 {
                out.push(Token::Semicolon);
            }
            out.push(Token::Esac);
        }
        18 => {
            out.push(Token::New);
            out.push(some_type(dice));
        }
        19 => {
            out.push(Token::Isvoid);
            write_expr(dice, depth, out);
        }
        20 => {
            out.push(Token::LeftParen);
            write_expr(dice, depth, out);
            out.push(Token::RightParen);
        }
        _ => out.push(Token::False),
    }
    maybe_comment(dice, out);
}

fn write_class(dice: &mut Dice, out: &mut Vec<Token>) {
    maybe_comment(dice, out);
    out.push(Token::Class);
    out.push(some_type(dice));
    if dice.roll(2) == 0 {
        out.push(Token::Inherits);
        out.push(some_type(dice));
    }
    out.push(Token::LeftBrace);
    for _ in 0..dice.roll(4) {
        if dice.roll(2) == 0 {
            maybe_comment(dice, out);
            out.push(name(dice));
            out.push(Token::LeftParen);
            let count = dice.roll(3);
            for i in 0..count {
                if i > 0 {
                    out.push(Token::Comma);
                }
                out.push(name(dice));
                out.push(Token::Colon);
                out.push(some_type(dice));
            }
            out.push(Token::RightParen);
            out.push(Token::Colon);
            out.push(some_type(dice));
            maybe_comment(dice, out);
            out.push(Token::LeftBrace);
            write_expr(dice, 2, out);
            out.push(Token::RightBrace);
        } else {
            write_declaration(dice, 2, out);
        }
        out.push(Token::Semicolon);
    }
    out.push(Token::RightBrace);
    out.push(Token::Semicolon);
}

fn any_token(dice: &mut Dice) -> Token {
    let all = [
        Token::Error,
        Token::Integer(1),
        Token::TypeIdentifier("A".to_string()),
        Token::ObjectIdentifier("a".to_string()),
        Token::SelfLit,
        Token::SelfType,
        Token::String("\"s\"".to_string()),
        Token::Class,
        Token::Else,
        Token::Fi,
        Token::If,
        Token::In,
        Token::Inherits,
        Token::Isvoid,
        Token::Let,
        Token::Loop,
        Token::Pool,
        Token::Then,
        Token::While,
        Token::Case,
        Token::Esac,
        Token::New,
        Token::Of,
        Token::Not,
        Token::True,
        Token::False,
        Token::Comment,
        Token::Plus,
        Token::Minus,
        Token::Multiply,
        Token::Divide,
        Token::Tilde,
        Token::LessThan,
        Token::LessThanOrEqual,
        Token::Equal,
        Token::LeftParen,
        Token::RightParen,
        Token::DoubleArrow,
        Token::Assign,
        Token::Colon,
        Token::TypeId,
        Token::LeftBrace,
        Token::RightBrace,
        Token::Semicolon,
        Token::Dot,
        Token::Comma,
    ];
    all[dice.roll(all.len())].clone()
}

fn damage(dice: &mut Dice, tokens: &mut Vec<Token>) {
    if tokens.is_empty() {
        tokens.push(any_token(dice));
        return;
    }
    let at = dice.roll(tokens.len());
    match dice.roll(3) {
        0 => {
            tokens.remove(at);
        }
        1 => tokens.insert(at, any_token(dice)),
        _ => tokens[at] = any_token(dice),
    }
}

#[test]
fn agrees_on_written_programs() {
    let sources = [
        "",
        "class A { };",
        "class A { foo(): Int { 1 + 2 }; };",
        "class B inherits A { x : Int <- 5; };",
        "class A { f(a : Int, b : Bool) : SELF_TYPE { { a; b . self; } }; x : Int; };\nclass B { };",
        "-- one\nclass A { (* m *) f() : Int (* b *) { (* c *) 1 (* d *) }; }; (* end *)",
        "class A { -- not here\n x : Int; };",
        "class A { x : Int; -- nor here\n };",
        "class A { f() : Int { f(1) (* c *) }; };",
        "class A { f() : Int { (* c *) f(1) }; };",
        "class A { f(a : Int,) : Int { 1 }; };",
        "class A { f() : Int { { } }; };",
        "class A { f() : Int { 1 } };",
        "class A { f() : Int { 1 }; }",
        "class A inherits { };",
        "class A { x : Int <- ; };",
        "class a { };",
        "class A { }; class",
        "class A { }; 1",
    ];
    let inputs: Vec<Vec<Token>> = sources.iter().map(|s| tokens_of(s)).collect();
    let accepted = check_programs(&inputs);
    assert_eq!(accepted, 8);
}

#[test]
fn agrees_on_written_expressions() {
    let sources = [
        "1",
        "1 + 2 * 3 - 4 / 5",
        "1 < 2 <= 3 = 4",
        "not ~ not x",
        "a.f().g(1)@A.h(2, 3,)",
        "f(x).g()",
        "f(1 2)",
        "x <- y <- 3",
        "x <- ",
        "x.y",
        "{ x.y }",
        "{ x.y(); 2 . 3 }",
        "{ 1; }",
        "{ ; }",
        "{ 1;; }",
        "let x : Int <- 1, y : Bool in x + y",
        "let x : Int <- in x",
        "let x : Int, in x",
        "1 + let x : Int in x + 2",
        "(let x : Int in x) + 2",
        "if a then b else c fi.f()",
        "if a then b fi",
        "while a loop b pool + 1",
        "case a of x : Int => 1; y : A => 2 esac",
        "case a of x : Int => 1;; esac",
        "case a of esac",
        "isvoid a.f()",
        "isvoid isvoid a",
        "new A.f()",
        "new a",
        "self@A.f()",
        "a@.f()",
        "a.f(,)",
        "~",
        "1 +",
        "1 + (* c *) 2 (* d *) * (* e *) 3",
        "f((* c *) x)",
        "f((* c *) not x)",
        "(1",
        "1)",
        "\"s\".length()",
        "a - - b",
    ];
    let inputs: Vec<Vec<Token>> = sources.iter().map(|s| tokens_of(s)).collect();
    let accepted = check_expressions(&inputs);
    assert!(accepted >= 20, "{}", accepted);
}

#[test]
fn agrees_on_random_expressions() {
    let mut dice = Dice(1);
    let mut inputs = Vec::new();
    for _ in 0..1500 {
        let mut tokens = Vec::new();
        write_expr(&mut dice, 3, &mut tokens);
        inputs.push(tokens);
    }
    let accepted = check_expressions(&inputs);
    assert!(accepted > 300, "{}", accepted);
}

#[test]
fn agrees_on_damaged_expressions() {
    let mut dice = Dice(2);
    let mut inputs = Vec::new();
    for _ in 0..1500 {
        let mut tokens = Vec::new();
        write_expr(&mut dice, 3, &mut tokens);
        damage(&mut dice, &mut tokens);
        if dice.roll(3) == 0 {
            damage(&mut dice, &mut tokens);
        }
        inputs.push(tokens);
    }
    check_expressions(&inputs);
}

#[test]
fn agrees_on_random_programs() {
    let mut dice = Dice(3);
    let mut inputs = Vec::new();
    for _ in 0..600 {
        let mut tokens = Vec::new();
        for _ in 0..dice.roll(3) {
            write_class(&mut dice, &mut tokens);
        }
        if dice.roll(2) == 0 {
            damage(&mut dice, &mut tokens);
        }
        inputs.push(tokens);
    }
    let accepted = check_programs(&inputs);
    assert!(accepted > 50, "{}", accepted);
}

#[test]
fn agrees_on_token_soup() {
    let mut dice = Dice(4);
    let mut inputs = Vec::new();
    for _ in 0..3000 {
        let mut tokens = Vec::new();
        for _ in 0..dice.roll(7) {
            tokens.push(any_token(&mut dice));
        }
        inputs.push(tokens);
    }
    check_expressions(&inputs);
    check_programs(&inputs);
}
