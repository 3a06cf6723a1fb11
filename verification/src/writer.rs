//! Writing a tree out as tokens. What is written here is what the grammar
//! reads back as the same tree.

use vstd::prelude::*;
use crate::ast::{
    lemma_view_of_expr, lemma_views, lemma_views_empty, lemma_views_of_bindings,
    lemma_views_of_branches, lemma_views_of_exprs, lemma_views_push, name_view, opt_expr_view,
    views, CaseBranch, Class, Expr, Feature, Formal, LetBinding, MethodFeature, Program,
};
use crate::lexer::plain_token;
use crate::parser::token_views;
use crate::token::{Span, SpannedToken, Token, TokenKind, TokenView};
use crate::written::{
    named, sign, written, written_bare, written_bindings, written_branches, written_call_tail,
    written_class, written_classes, written_declaration, written_feature, written_features,
    written_formals, written_link, written_list, written_method, written_more, written_parent,
    written_program, written_typed_name,
};

verus! {

broadcast use vstd::std_specs::vec::axiom_vec_index_decreases;

/// The kinds of token that a tree is written with and that carry nothing.
pub open spec fn is_sign(kind: TokenKind) -> bool {
    kind != TokenKind::Integer && kind != TokenKind::TypeIdentifier && kind
        != TokenKind::ObjectIdentifier && kind != TokenKind::String && kind
        != TokenKind::EndOfInput
}

/// `out`, after `more` was written behind what it held.
pub open spec fn grown(before: Seq<Token>, after: Seq<Token>, more: Seq<TokenView>) -> bool {
    views(after) == views(before) + more
}

/// Writes the token of kind `kind`.
fn put_sign(out: &mut Vec<Token>, kind: TokenKind)
    requires
        is_sign(kind),
    ensures
        grown(old(out)@, final(out)@, sign(kind)),
{
    let token = plain_token(kind);
    proof {
        lemma_views_push(out@, token);
        assert(views(out@).push(token@) =~= views(out@) + sign(kind));
    }
    out.push(token);
}

/// Writes the identifier of objects with the text `text`.
fn put_name(out: &mut Vec<Token>, text: &String)
    ensures
        grown(old(out)@, final(out)@, named(TokenKind::ObjectIdentifier, text@)),
{
    let token = Token::ObjectIdentifier(text.clone());
    proof {
        lemma_views_push(out@, token);
        assert(views(out@).push(token@) =~= views(out@) + named(
            TokenKind::ObjectIdentifier,
            text@,
        ));
    }
    out.push(token);
}

/// Writes the identifier of types with the text `text`.
fn put_type(out: &mut Vec<Token>, text: &String)
    ensures
        grown(old(out)@, final(out)@, named(TokenKind::TypeIdentifier, text@)),
{
    let token = Token::TypeIdentifier(text.clone());
    proof {
        lemma_views_push(out@, token);
        assert(views(out@).push(token@) =~= views(out@) + named(TokenKind::TypeIdentifier, text@));
    }
    out.push(token);
}

/// Writes `id ':' TypeId`.
fn put_typed_name(out: &mut Vec<Token>, name: &String, typ: &String)
    ensures
        grown(old(out)@, final(out)@, written_typed_name(name@, typ@)),
{
    let ghost before = views(out@);
    put_name(out, name);
    put_sign(out, TokenKind::Colon);
    put_type(out, typ);
    proof {
        assert(views(out@) =~= before + written_typed_name(name@, typ@));
    }
}

/// Writes the expression `e` within parentheses.
fn write_expr(e: &Expr, out: &mut Vec<Token>)
    ensures
        grown(old(out)@, final(out)@, written(e@)),
    decreases e, 2int,
{
    let ghost before = views(out@);
    put_sign(out, TokenKind::LeftParen);
    write_bare(e, out);
    put_sign(out, TokenKind::RightParen);
    proof {
        reveal_with_fuel(written_bare, 1);
        assert(views(out@) =~= before + written(e@));
    }
}

/// Writes `a op b`.
fn write_binary(a: &Expr, op: TokenKind, b: &Expr, Ghost(e): Ghost<&Expr>, out: &mut Vec<Token>)
    requires
        is_sign(op),
        decreases_to!(e => a),
        decreases_to!(e => b),
    ensures
        grown(old(out)@, final(out)@, written(a@) + sign(op) + written(b@)),
    decreases e, 0int,
{
    let ghost before = views(out@);
    write_expr(a, out);
    put_sign(out, op);
    write_expr(b, out);
    proof {
        assert(views(out@) =~= before + (written(a@) + sign(op) + written(b@) ));
    }
}

/// Writes `kind a`, for the keyword `kind` of an expression with one part.
fn write_unary(kind: TokenKind, a: &Expr, Ghost(e): Ghost<&Expr>, out: &mut Vec<Token>)
    requires
        is_sign(kind),
        decreases_to!(e => a),
    ensures
        grown(old(out)@, final(out)@, sign(kind) + written(a@)),
    decreases e, 0int,
{
    let ghost before = views(out@);
    put_sign(out, kind);
    write_expr(a, out);
    proof {
        assert(views(out@) =~= before + (sign(kind) + written(a@) ));
    }
}

/// Writes `name <- a`.
fn write_assign(name: &String, a: &Expr, Ghost(e): Ghost<&Expr>, out: &mut Vec<Token>)
    requires
        decreases_to!(e => a),
    ensures
        grown(
            old(out)@,
            final(out)@,
            named(TokenKind::ObjectIdentifier, name@) + sign(TokenKind::Assign) + written(a@),
        ),
    decreases e, 0int,
{
    let ghost before = views(out@);
    put_name(out, name);
    put_sign(out, TokenKind::Assign);
    write_expr(a, out);
    proof {
        assert(views(out@) =~= before + (
            named(TokenKind::ObjectIdentifier, name@) + sign(TokenKind::Assign) + written(a@)
        ));
    }
}

/// Writes `if c then t else f fi`.
fn write_if(c: &Expr, t: &Expr, f: &Expr, Ghost(e): Ghost<&Expr>, out: &mut Vec<Token>)
    requires
        decreases_to!(e => c),
        decreases_to!(e => t),
        decreases_to!(e => f),
    ensures
        grown(
            old(out)@,
            final(out)@,
            sign(TokenKind::If) + written(c@) + sign(TokenKind::Then) + written(t@)
                + sign(TokenKind::Else) + written(f@) + sign(TokenKind::Fi),
        ),
    decreases e, 0int,
{
    let ghost before = views(out@);
    put_sign(out, TokenKind::If);
    write_expr(c, out);
    put_sign(out, TokenKind::Then);
    write_expr(t, out);
    put_sign(out, TokenKind::Else);
    write_expr(f, out);
    put_sign(out, TokenKind::Fi);
    proof {
        assert(views(out@) =~= before + (
            sign(TokenKind::If) + written(c@) + sign(TokenKind::Then) + written(t@)
                + sign(TokenKind::Else) + written(f@) + sign(TokenKind::Fi)
        ));
    }
}

/// Writes `while c loop b pool`.
fn write_while(c: &Expr, b: &Expr, Ghost(e): Ghost<&Expr>, out: &mut Vec<Token>)
    requires
        decreases_to!(e => c),
        decreases_to!(e => b),
    ensures
        grown(
            old(out)@,
            final(out)@,
            sign(TokenKind::While) + written(c@) + sign(TokenKind::Loop) + written(b@)
                + sign(TokenKind::Pool),
        ),
    decreases e, 0int,
{
    let ghost before = views(out@);
    put_sign(out, TokenKind::While);
    write_expr(c, out);
    put_sign(out, TokenKind::Loop);
    write_expr(b, out);
    put_sign(out, TokenKind::Pool);
    proof {
        assert(views(out@) =~= before + (
            sign(TokenKind::While) + written(c@) + sign(TokenKind::Loop) + written(b@)
                + sign(TokenKind::Pool)
        ));
    }
}

/// Writes the arguments of a call between parentheses.
fn write_call_tail(args: &Vec<Expr>, out: &mut Vec<Token>)
    ensures
        grown(old(out)@, final(out)@, written_call_tail(views(args@))),
    decreases args, 1int,
{
    let ghost before = views(out@);
    put_sign(out, TokenKind::LeftParen);
    write_list(args, TokenKind::Comma, out);
    put_sign(out, TokenKind::RightParen);
    proof {
        assert(views(out@) =~= before + (
            sign(TokenKind::LeftParen) + written_list(views(args@), TokenKind::Comma)
                + sign(TokenKind::RightParen)
        ));
    }
}

/// Writes the name of a method and the arguments of its call.
fn write_call(name: &String, args: &Vec<Expr>, out: &mut Vec<Token>)
    ensures
        grown(
            old(out)@,
            final(out)@,
            named(TokenKind::ObjectIdentifier, name@) + written_call_tail(views(args@)),
        ),
    decreases args, 2int,
{
    let ghost before = views(out@);
    put_name(out, name);
    write_call_tail(args, out);
    proof {
        assert(views(out@) =~= before + (
            named(TokenKind::ObjectIdentifier, name@) + written_call_tail(views(args@))
        ));
    }
}

/// Writes a block.
fn write_block(items: &Vec<Expr>, out: &mut Vec<Token>)
    ensures
        grown(
            old(out)@,
            final(out)@,
            sign(TokenKind::LeftBrace) + written_list(views(items@), TokenKind::Semicolon)
                + sign(TokenKind::RightBrace),
        ),
    decreases items, 1int,
{
    let ghost before = views(out@);
    put_sign(out, TokenKind::LeftBrace);
    write_list(items, TokenKind::Semicolon, out);
    put_sign(out, TokenKind::RightBrace);
    proof {
        assert(views(out@) =~= before + (
            sign(TokenKind::LeftBrace) + written_list(views(items@), TokenKind::Semicolon)
                + sign(TokenKind::RightBrace)
        ));
    }
}

/// Writes what stands between the receiver of a dispatch and the name of
/// the method.
fn write_link(static_type: &Option<String>, out: &mut Vec<Token>)
    ensures
        grown(old(out)@, final(out)@, written_link(name_view(*static_type))),
{
    let ghost before = views(out@);
    match static_type {
        None => {
            put_sign(out, TokenKind::Dot);
        },
        Some(t) => {
            put_sign(out, TokenKind::TypeId);
            put_type(out, t);
            put_sign(out, TokenKind::Dot);
            proof {
                assert(views(out@) =~= before + written_link(Some(t@)));
            }
        },
    }
}

/// Writes a dispatch.
fn write_dispatch(
    recv: &Expr,
    static_type: &Option<String>,
    method: &String,
    args: &Vec<Expr>,
    Ghost(e): Ghost<&Expr>,
    out: &mut Vec<Token>,
)
    requires
        decreases_to!(e => recv),
        decreases_to!(e => args),
    ensures
        grown(
            old(out)@,
            final(out)@,
            written(recv@) + written_link(name_view(*static_type)) + (named(
                TokenKind::ObjectIdentifier,
                method@,
            ) + written_call_tail(views(args@))),
        ),
    decreases e, 0int,
{
    let ghost before = views(out@);
    write_expr(recv, out);
    write_link(static_type, out);
    write_call(method, args, out);
    proof {
        assert(views(out@) =~= before + (
            written(recv@) + written_link(name_view(*static_type)) + (
                named(TokenKind::ObjectIdentifier, method@) + written_call_tail(views(args@))
            )
        ));
    }
}

/// Writes the expressions `items` with `separator` between them.
fn write_list(items: &Vec<Expr>, separator: TokenKind, out: &mut Vec<Token>)
    requires
        is_sign(separator),
    ensures
        grown(old(out)@, final(out)@, written_list(views(items@), separator)),
    decreases items, 0int,
{
    let ghost before = views(out@);
    let ghost all = views(items@);
    proof {
        lemma_views(items@);
    }
    if items.len() == 0 {
        proof {
            assert(before + written_list(all, separator) =~= before);
        }
        return ;
    }
    write_expr(&items[0], out);
    let mut i: usize = 1;
    while i < items.len()
        invariant
            1 <= i <= items.len(),
            is_sign(separator),
            all == views(items@),
            all.len() == items.len(),
            forall|j: int| 0 <= j < items.len() ==> (#[trigger] all[j]) == items@[j]@,
            views(out@) + written_more(all, i as int, separator) =~= before + written_list(
                all,
                separator,
            ),
        decreases items.len() - i,
    {
        let ghost so_far = views(out@);
        put_sign(out, separator);
        write_expr(&items[i], out);
        proof {
            assert(views(out@) + written_more(all, i + 1, separator) =~= so_far + written_more(
                all,
                i as int,
                separator,
            ));
        }
        i = i + 1;
    }
    proof {
        assert(views(out@) + written_more(all, i as int, separator) =~= views(out@));
    }
}

/// Writes a declaration: `id ':' TypeId ('<-' Expr)?`.
fn write_declaration(name: &String, typ: &String, init: &Option<Expr>, out: &mut Vec<Token>)
    ensures
        grown(old(out)@, final(out)@, written_declaration(name@, typ@, opt_expr_view(*init))),
    decreases init, 0int,
{
    let ghost before = views(out@);
    put_typed_name(out, name, typ);
    match init {
        None => {
            proof {
                assert(views(out@) =~= before + written_declaration(name@, typ@, None));
            }
        },
        Some(e) => {
            put_sign(out, TokenKind::Assign);
            write_expr(e, out);
            proof {
                lemma_view_of_expr(*e);
                assert(views(out@) =~= before + written_declaration(name@, typ@, Some(e@)));
            }
        },
    }
}

/// Writes the bindings of a `let`, with a comma between them.
fn write_bindings(items: &Vec<LetBinding>, out: &mut Vec<Token>)
    ensures
        grown(old(out)@, final(out)@, written_bindings(views(items@), 0)),
    decreases items, 1int,
{
    let ghost before = views(out@);
    let ghost all = views(items@);
    proof {
        lemma_views(items@);
    }
    let mut i: usize = 0;
    while i < items.len()
        invariant
            i <= items.len(),
            all == views(items@),
            all.len() == items.len(),
            forall|j: int| 0 <= j < items.len() ==> (#[trigger] all[j]) == items@[j]@,
            views(out@) + written_bindings(all, i as int) =~= before + written_bindings(all, 0),
        decreases items.len() - i,
    {
        let ghost so_far = views(out@);
        if i > 0 {
            put_sign(out, TokenKind::Comma);
        }
        let item = &items[i];
        write_declaration(&item.name, &item.typ, &item.init, out);
        proof {
            assert(views(out@) + written_bindings(all, i + 1) =~= so_far + written_bindings(
                all,
                i as int,
            ));
        }
        i = i + 1;
    }
    proof {
        assert(views(out@) + written_bindings(all, i as int) =~= views(out@));
    }
}

/// Writes the branches of a `case`, with a semicolon between them.
fn write_branches(items: &Vec<CaseBranch>, out: &mut Vec<Token>)
    ensures
        grown(old(out)@, final(out)@, written_branches(views(items@), 0)),
    decreases items, 1int,
{
    let ghost before = views(out@);
    let ghost all = views(items@);
    proof {
        lemma_views(items@);
    }
    let mut i: usize = 0;
    while i < items.len()
        invariant
            i <= items.len(),
            all == views(items@),
            all.len() == items.len(),
            forall|j: int| 0 <= j < items.len() ==> (#[trigger] all[j]) == items@[j]@,
            views(out@) + written_branches(all, i as int) =~= before + written_branches(all, 0),
        decreases items.len() - i,
    {
        let ghost so_far = views(out@);
        if i > 0 {
            put_sign(out, TokenKind::Semicolon);
        }
        let item = &items[i];
        put_typed_name(out, &item.name, &item.typ);
        put_sign(out, TokenKind::DoubleArrow);
        write_expr(&item.expr, out);
        proof {
            lemma_view_of_expr(item.expr);
            assert(views(out@) + written_branches(all, i + 1) =~= so_far + written_branches(
                all,
                i as int,
            ));
        }
        i = i + 1;
    }
    proof {
        assert(views(out@) + written_branches(all, i as int) =~= views(out@));
    }
}

/// Writes `let bindings in body`.
fn write_let(bindings: &Vec<LetBinding>, body: &Expr, Ghost(e): Ghost<&Expr>, out: &mut Vec<Token>)
    requires
        decreases_to!(e => bindings),
        decreases_to!(e => body),
    ensures
        grown(
            old(out)@,
            final(out)@,
            sign(TokenKind::Let) + written_bindings(views(bindings@), 0) + sign(TokenKind::In)
                + written(body@),
        ),
    decreases e, 0int,
{
    let ghost before = views(out@);
    put_sign(out, TokenKind::Let);
    write_bindings(bindings, out);
    put_sign(out, TokenKind::In);
    write_expr(body, out);
    proof {
        assert(views(out@) =~= before + (
            sign(TokenKind::Let) + written_bindings(views(bindings@), 0) + sign(TokenKind::In)
                + written(body@)
        ));
    }
}

/// Writes `case subject of branches esac`.
fn write_case(
    subject: &Expr,
    branches: &Vec<CaseBranch>,
    Ghost(e): Ghost<&Expr>,
    out: &mut Vec<Token>,
)
    requires
        decreases_to!(e => subject),
        decreases_to!(e => branches),
    ensures
        grown(
            old(out)@,
            final(out)@,
            sign(TokenKind::Case) + written(subject@) + sign(TokenKind::Of)
                + written_branches(views(branches@), 0) + sign(TokenKind::Esac),
        ),
    decreases e, 0int,
{
    let ghost before = views(out@);
    put_sign(out, TokenKind::Case);
    write_expr(subject, out);
    put_sign(out, TokenKind::Of);
    write_branches(branches, out);
    put_sign(out, TokenKind::Esac);
    proof {
        assert(views(out@) =~= before + (
            sign(TokenKind::Case) + written(subject@) + sign(TokenKind::Of)
                + written_branches(views(branches@), 0) + sign(TokenKind::Esac)
        ));
    }
}

/// Writes the expression `e` without parentheses around it.
fn write_bare(e: &Expr, out: &mut Vec<Token>)
    ensures
        grown(old(out)@, final(out)@, written_bare(e@)),
    decreases e, 1int,
{
    proof {
        reveal(Expr::shape);
        reveal_with_fuel(written_bare, 1);
    }
    match e {
        Expr::Assign { name, expr } => {
            write_assign(name, expr, Ghost(e), out);
        },
        Expr::Dispatch { expr, static_type, method, args } => {
            proof {
                lemma_views_of_exprs(args@);
            }
            write_dispatch(expr, static_type, method, args, Ghost(e), out);
        },
        Expr::FuncCall { name, args } => {
            proof {
                lemma_views_of_exprs(args@);
            }
            write_call(name, args, out);
        },
        Expr::If { cond, then_branch, else_branch } => {
            write_if(cond, then_branch, else_branch, Ghost(e), out);
        },
        Expr::While { cond, body } => {
            write_while(cond, body, Ghost(e), out);
        },
        Expr::Block(items) => {
            proof {
                lemma_views_of_exprs(items@);
            }
            write_block(items, out);
        },
        Expr::Let { bindings, body } => {
            proof {
                lemma_views_of_bindings(bindings@);
            }
            write_let(bindings, body, Ghost(e), out);
        },
        Expr::Case { expr, branches } => {
            proof {
                lemma_views_of_branches(branches@);
            }
            write_case(expr, branches, Ghost(e), out);
        },
        Expr::New(t) => {
            let ghost before = views(out@);
            put_sign(out, TokenKind::New);
            put_type(out, t);
            proof {
                assert(views(out@) =~= before + written_bare(e@));
            }
        },
        Expr::IsVoid(a) => {
            write_unary(TokenKind::Isvoid, a, Ghost(e), out);
        },
        Expr::Plus(a, b) => {
            write_binary(a, TokenKind::Plus, b, Ghost(e), out);
        },
        Expr::Minus(a, b) => {
            write_binary(a, TokenKind::Minus, b, Ghost(e), out);
        },
        Expr::Times(a, b) => {
            write_binary(a, TokenKind::Multiply, b, Ghost(e), out);
        },
        Expr::Divide(a, b) => {
            write_binary(a, TokenKind::Divide, b, Ghost(e), out);
        },
        Expr::Lt(a, b) => {
            write_binary(a, TokenKind::LessThan, b, Ghost(e), out);
        },
        Expr::Le(a, b) => {
            write_binary(a, TokenKind::LessThanOrEqual, b, Ghost(e), out);
        },
        Expr::Eq(a, b) => {
            write_binary(a, TokenKind::Equal, b, Ghost(e), out);
        },
        Expr::Not(a) => {
            write_unary(TokenKind::Not, a, Ghost(e), out);
        },
        Expr::Paren(a) => {
            write_expr(a, out);
        },
        Expr::Id(name) => {
            put_name(out, name);
        },
        Expr::Integer(value) => {
            let token = Token::Integer(*value);
            proof {
                lemma_views_push(out@, token);
                assert(views(out@).push(token@) =~= views(out@) + written_bare(e@));
            }
            out.push(token);
        },
        Expr::String(text) => {
            let token = Token::String(text.clone());
            proof {
                lemma_views_push(out@, token);
                assert(views(out@).push(token@) =~= views(out@) + written_bare(e@));
            }
            out.push(token);
        },
        Expr::True => {
            put_sign(out, TokenKind::True);
        },
        Expr::False => {
            put_sign(out, TokenKind::False);
        },
    }
}

/// Writes the formals of a method, with a comma between them.
fn write_formals(items: &Vec<Formal>, out: &mut Vec<Token>)
    ensures
        grown(old(out)@, final(out)@, written_formals(views(items@), 0)),
{
    let ghost before = views(out@);
    let ghost all = views(items@);
    proof {
        lemma_views(items@);
    }
    let mut i: usize = 0;
    while i < items.len()
        invariant
            i <= items.len(),
            all == views(items@),
            all.len() == items.len(),
            forall|j: int| 0 <= j < items.len() ==> (#[trigger] all[j]) == items@[j]@,
            views(out@) + written_formals(all, i as int) =~= before + written_formals(all, 0),
        decreases items.len() - i,
    {
        let ghost so_far = views(out@);
        if i > 0 {
            put_sign(out, TokenKind::Comma);
        }
        let item = &items[i];
        put_typed_name(out, &item.name, &item.typ);
        proof {
            assert(views(out@) + written_formals(all, i + 1) =~= so_far + written_formals(
                all,
                i as int,
            ));
        }
        i = i + 1;
    }
    proof {
        assert(views(out@) + written_formals(all, i as int) =~= views(out@));
    }
}

/// Writes a method.
fn write_method(m: &MethodFeature, out: &mut Vec<Token>)
    ensures
        grown(old(out)@, final(out)@, written_method(m@)),
{
    let ghost before = views(out@);
    put_name(out, &m.name);
    put_sign(out, TokenKind::LeftParen);
    write_formals(&m.formals, out);
    put_sign(out, TokenKind::RightParen);
    put_sign(out, TokenKind::Colon);
    put_type(out, &m.return_type);
    put_sign(out, TokenKind::LeftBrace);
    write_expr(&m.body, out);
    put_sign(out, TokenKind::RightBrace);
    proof {
        assert(views(out@) =~= before + (
            named(TokenKind::ObjectIdentifier, m.name@) + sign(TokenKind::LeftParen)
                + written_formals(views(m.formals@), 0) + sign(TokenKind::RightParen)
                + sign(TokenKind::Colon) + named(TokenKind::TypeIdentifier, m.return_type@)
                + sign(TokenKind::LeftBrace) + written(m.body@) + sign(TokenKind::RightBrace)
        ));
    }
}

/// Writes a feature and the semicolon that closes it.
fn write_feature(f: &Feature, out: &mut Vec<Token>)
    ensures
        grown(old(out)@, final(out)@, written_feature(f@)),
{
    let ghost before = views(out@);
    match f {
        Feature::Method(m) => {
            write_method(m, out);
        },
        Feature::Attribute(a) => {
            write_declaration(&a.name, &a.attr_type, &a.init, out);
        },
    }
    put_sign(out, TokenKind::Semicolon);
    proof {
        assert(views(out@) =~= before + written_feature(f@));
    }
}

/// Writes the features of a class.
fn write_features(items: &Vec<Feature>, out: &mut Vec<Token>)
    ensures
        grown(old(out)@, final(out)@, written_features(views(items@), 0)),
{
    let ghost before = views(out@);
    let ghost all = views(items@);
    proof {
        lemma_views(items@);
    }
    let mut i: usize = 0;
    while i < items.len()
        invariant
            i <= items.len(),
            all == views(items@),
            all.len() == items.len(),
            forall|j: int| 0 <= j < items.len() ==> (#[trigger] all[j]) == items@[j]@,
            views(out@) + written_features(all, i as int) =~= before + written_features(all, 0),
        decreases items.len() - i,
    {
        let ghost so_far = views(out@);
        write_feature(&items[i], out);
        proof {
            assert(views(out@) + written_features(all, i + 1) =~= so_far + written_features(
                all,
                i as int,
            ));
        }
        i = i + 1;
    }
    proof {
        assert(views(out@) + written_features(all, i as int) =~= views(out@));
    }
}

/// Writes the words that name the parent of a class, where it has one.
fn write_parent(parent: &Option<String>, out: &mut Vec<Token>)
    ensures
        grown(old(out)@, final(out)@, written_parent(name_view(*parent))),
{
    let ghost before = views(out@);
    match parent {
        None => {
            proof {
                assert(before + written_parent(None) =~= before);
            }
        },
        Some(t) => {
            put_sign(out, TokenKind::Inherits);
            put_type(out, t);
            proof {
                assert(views(out@) =~= before + written_parent(Some(t@)));
            }
        },
    }
}

/// Writes a class and the semicolon that closes it.
fn write_class(c: &Class, out: &mut Vec<Token>)
    ensures
        grown(old(out)@, final(out)@, written_class(c@)),
{
    let ghost before = views(out@);
    put_sign(out, TokenKind::Class);
    put_type(out, &c.name);
    write_parent(&c.parent, out);
    put_sign(out, TokenKind::LeftBrace);
    write_features(&c.features, out);
    put_sign(out, TokenKind::RightBrace);
    put_sign(out, TokenKind::Semicolon);
    proof {
        assert(views(out@) =~= before + (
            sign(TokenKind::Class) + named(TokenKind::TypeIdentifier, c.name@)
                + written_parent(name_view(c.parent)) + sign(TokenKind::LeftBrace)
                + written_features(views(c.features@), 0) + sign(TokenKind::RightBrace)
                + sign(TokenKind::Semicolon)
        ));
    }
}

/// Writes the classes of a program.
fn write_classes(items: &Vec<Class>, out: &mut Vec<Token>)
    ensures
        grown(old(out)@, final(out)@, written_classes(views(items@), 0)),
{
    let ghost before = views(out@);
    let ghost all = views(items@);
    proof {
        lemma_views(items@);
    }
    let mut i: usize = 0;
    while i < items.len()
        invariant
            i <= items.len(),
            all == views(items@),
            all.len() == items.len(),
            forall|j: int| 0 <= j < items.len() ==> (#[trigger] all[j]) == items@[j]@,
            views(out@) + written_classes(all, i as int) =~= before + written_classes(all, 0),
        decreases items.len() - i,
    {
        let ghost so_far = views(out@);
        write_class(&items[i], out);
        proof {
            assert(views(out@) + written_classes(all, i + 1) =~= so_far + written_classes(
                all,
                i as int,
            ));
        }
        i = i + 1;
    }
    proof {
        assert(views(out@) + written_classes(all, i as int) =~= views(out@));
    }
}

/// Writes the expression `e` as tokens, each part of it within
/// parentheses.
pub fn write_expression(e: &Expr) -> (tokens: Vec<Token>)
    ensures
        views(tokens@) == written(e@),
{
    let mut tokens: Vec<Token> = Vec::new();
    proof {
        lemma_views_empty(tokens@);
    }
    write_expr(e, &mut tokens);
    proof {
        assert(Seq::<TokenView>::empty() + written(e@) =~= written(e@));
    }
    tokens
}

/// Writes the program `p` as tokens, each expression in it within
/// parentheses.
pub fn write_program(p: &Program) -> (tokens: Vec<Token>)
    ensures
        views(tokens@) == written_program(p@),
{
    let mut tokens: Vec<Token> = Vec::new();
    proof {
        lemma_views_empty(tokens@);
    }
    write_classes(&p.classes, &mut tokens);
    proof {
        assert(Seq::<TokenView>::empty() + written_program(p@) =~= written_program(p@));
    }
    tokens
}

/// Gives each of `tokens` a place, as if each took one byte of a text: the
/// token at index `i` gets the span from `i` to `i + 1`.
pub fn placed(tokens: &Vec<Token>) -> (stream: Vec<SpannedToken>)
    ensures
        token_views(stream@) == views(tokens@),
        stream@.len() == tokens@.len(),
        forall|i: int|
            0 <= i < stream@.len() ==> (#[trigger] stream@[i]).span == (Span {
                start: i as usize,
                end: (i + 1) as usize,
            }),
{
    let mut stream: Vec<SpannedToken> = Vec::new();
    proof {
        lemma_views(tokens@);
    }
    let mut i: usize = 0;
    while i < tokens.len()
        invariant
            i <= tokens.len(),
            stream@.len() == i,
            forall|j: int| 0 <= j < i ==> (#[trigger] stream@[j]).token@ == tokens@[j]@,
            forall|j: int|
                0 <= j < i ==> (#[trigger] stream@[j]).span == (Span {
                    start: j as usize,
                    end: (j + 1) as usize,
                }),
        decreases tokens.len() - i,
    {
        stream.push(SpannedToken { token: tokens[i].clone(), span: Span { start: i, end: i + 1 } });
        i = i + 1;
    }
    proof {
        assert(token_views(stream@) =~= views(tokens@));
    }
    stream
}

} // verus!
