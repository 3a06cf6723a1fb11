//! The `Error` token, which stands for a stretch of text that is no token,
//! is taken by no production of the grammar: a token sequence that holds
//! one is no program and no expression.

use vstd::prelude::*;
use crate::ast::{CaseBranchView, ClassView, ExprView, FeatureView, FormalView, LetBindingView};
use crate::grammar::{
    as_binding, as_formal, binary_node, comments, far_none, g_args, g_args_rest, g_atom,
    g_atom_core, g_binary, g_binary_rest, g_block_rest, g_block_tail, g_call_tail, g_case_branch,
    g_case_rest, g_case_tail, g_class_tail, g_classes, g_declaration, g_enclosing, g_expr,
    g_expression, g_feature, g_features, g_formals, g_formals_rest, g_if_branches, g_if_tail,
    g_let_rest, g_let_tail, g_method, g_method_call, g_named_tail, g_padded, g_parent, g_postfix,
    g_postfix_rest, g_program, g_static_call, g_typed_name, g_unary, g_while_tail, is_kind, is_op,
    kind_of, merge, named_type, remaining, text_of, Far, Parsed,
};
use crate::lexical::lexemes;
use crate::program::stream_views;
use crate::token::{TokenKind, TokenView};

verus! {

/// None of the `count` tokens from `from` on is the `Error` token.
#[verifier::opaque]
pub open spec fn clean(toks: Seq<TokenView>, from: int, count: nat) -> bool {
    forall|i: int| from <= i < from + count ==> #[trigger] kind_of(toks, i) != TokenKind::Error
}

/// Where `r` is a match at `pos`, none of the tokens it takes is the
/// `Error` token.
pub open spec fn taken<T>(toks: Seq<TokenView>, pos: int, r: Parsed<T>) -> bool {
    r.out matches Some((_, n)) ==> clean(toks, pos, n)
}

/// The token at `pos` is one that the grammar names: it is no `Error`
/// token.
pub open spec fn named(toks: Seq<TokenView>, pos: int) -> bool {
    0 <= pos < toks.len() && kind_of(toks, pos) != TokenKind::Error
}

/// An operator is no `Error` token.
proof fn lemma_named_operator(toks: Seq<TokenView>, pos: int, level: nat)
    requires
        is_op(toks, pos, level),
    ensures
        named(toks, pos),
{
}

/// The name of a type is no `Error` token.
proof fn lemma_named_type(toks: Seq<TokenView>, pos: int)
    requires
        named_type(toks, pos) is Some,
    ensures
        named(toks, pos),
{
    reveal(named_type);
}

/// No token at all holds no `Error` token.
proof fn lemma_none(toks: Seq<TokenView>, pos: int)
    ensures
        clean(toks, pos, 0),
{
    reveal(clean);
}

/// One token that the grammar names.
proof fn lemma_one(toks: Seq<TokenView>, pos: int)
    requires
        named(toks, pos),
    ensures
        clean(toks, pos, 1),
{
    reveal(clean);
}

/// Two tokens that the grammar names.
proof fn lemma_two(toks: Seq<TokenView>, pos: int)
    requires
        named(toks, pos),
        named(toks, pos + 1),
    ensures
        clean(toks, pos, 2),
{
    reveal(clean);
}

/// Comments are no `Error` tokens.
proof fn lemma_comments_taken(toks: Seq<TokenView>, pos: int)
    ensures
        clean(toks, pos, comments(toks, pos)),
    decreases remaining(toks, pos),
{
    reveal_with_fuel(comments, 1);
    reveal(clean);
    if is_kind(toks, pos, TokenKind::Comment) {
        lemma_comments_taken(toks, pos + 1);
    }
}

/// One stretch behind another: `n` tokens, then `m`.
proof fn lemma_then(toks: Seq<TokenView>, pos: int, n: nat, m: nat)
    requires
        clean(toks, pos, n),
        clean(toks, pos + n, m),
    ensures
        clean(toks, pos, n + m),
        clean(toks, pos, m + n),
{
    reveal(clean);
}

/// A stretch with the comments before it and behind it.
proof fn lemma_between_comments(toks: Seq<TokenView>, pos: int, n: nat)
    requires
        clean(toks, pos + comments(toks, pos), n),
    ensures
        clean(
            toks,
            pos,
            comments(toks, pos) + n + comments(toks, pos + comments(toks, pos) + n),
        ),
{
    reveal(clean);
    lemma_comments_taken(toks, pos);
    lemma_comments_taken(toks, pos + comments(toks, pos) + n);
}

/// An operator between comments, its operand, and what follows.
proof fn lemma_operator_step(toks: Seq<TokenView>, pos: int, n: nat, m: nat)
    requires
        named(toks, pos + comments(toks, pos)),
        clean(
            toks,
            pos + comments(toks, pos) + 1 + comments(toks, pos + comments(toks, pos) + 1),
            n,
        ),
        clean(
            toks,
            pos + comments(toks, pos) + 1 + comments(toks, pos + comments(toks, pos) + 1) + n,
            m,
        ),
    ensures
        clean(
            toks,
            pos,
            m + (comments(toks, pos) + 1 + comments(toks, pos + comments(toks, pos) + 1) + n),
        ),
{
    reveal(clean);
    lemma_comments_taken(toks, pos);
    lemma_comments_taken(toks, pos + comments(toks, pos) + 1);
}

/// A token, and `n` tokens behind it.
proof fn lemma_one_then(toks: Seq<TokenView>, pos: int, n: nat)
    requires
        named(toks, pos),
        clean(toks, pos + 1, n),
    ensures
        clean(toks, pos, 1 + n),
        clean(toks, pos, n + 1),
{
    reveal(clean);
}

/// A token, `n` tokens behind it, and `m` behind those.
proof fn lemma_one_then_more(toks: Seq<TokenView>, pos: int, n: nat, m: nat)
    requires
        named(toks, pos),
        clean(toks, pos + 1, n),
        clean(toks, pos + 1 + n, m),
    ensures
        clean(toks, pos, m + (1 + n)),
{
    reveal(clean);
}

/// Two tokens, and `n` tokens behind them.
proof fn lemma_two_then(toks: Seq<TokenView>, pos: int, n: nat)
    requires
        named(toks, pos),
        named(toks, pos + 1),
        clean(toks, pos + 2, n),
    ensures
        clean(toks, pos, 2 + n),
{
    reveal(clean);
}

/// `n` tokens between two tokens.
proof fn lemma_enclosed(toks: Seq<TokenView>, pos: int, n: nat)
    requires
        named(toks, pos),
        clean(toks, pos + 1, n),
        named(toks, pos + 1 + n),
    ensures
        clean(toks, pos, n + 2),
{
    reveal(clean);
}

/// Three tokens, a fourth, and `n` tokens behind them.
proof fn lemma_four_then(toks: Seq<TokenView>, pos: int, n: nat)
    requires
        clean(toks, pos, 3),
        named(toks, pos + 3),
        clean(toks, pos + 4, n),
    ensures
        clean(toks, pos, 4 + n),
{
    reveal(clean);
}

/// A token and three tokens behind it.
proof fn lemma_four(toks: Seq<TokenView>, pos: int)
    requires
        named(toks, pos),
        clean(toks, pos + 1, 3),
    ensures
        clean(toks, pos, 4),
{
    reveal(clean);
}

/// `n` tokens, a token, and `m` tokens.
proof fn lemma_joined(toks: Seq<TokenView>, pos: int, n: nat, m: nat)
    requires
        clean(toks, pos, n),
        named(toks, pos + n),
        clean(toks, pos + n + 1, m),
    ensures
        clean(toks, pos, n + 1 + m),
        clean(toks, pos, m + (n + 1)),
{
    reveal(clean);
}

/// `n` tokens, a token, `m` tokens, and a token.
proof fn lemma_joined_closed(toks: Seq<TokenView>, pos: int, n: nat, m: nat)
    requires
        clean(toks, pos, n),
        named(toks, pos + n),
        clean(toks, pos + n + 1, m),
        named(toks, pos + n + 1 + m),
    ensures
        clean(toks, pos, n + 1 + m + 1),
{
    reveal(clean);
}

/// The parts of a `let`: its bindings, `in`, and its body.
proof fn lemma_let_parts(toks: Seq<TokenView>, pos: int, n: nat, r: nat, m: nat)
    requires
        clean(toks, pos, n),
        clean(toks, pos + n, r),
        named(toks, pos + n + r),
        clean(toks, pos + n + r + 1, m),
    ensures
        clean(toks, pos, n + r + 1 + m),
{
    reveal(clean);
}

/// The parts of a `case`: its subject, `of`, its branches, and `esac`.
proof fn lemma_case_parts(toks: Seq<TokenView>, pos: int, n1: nat, n2: nat, r: nat)
    requires
        clean(toks, pos, n1),
        named(toks, pos + n1),
        clean(toks, pos + n1 + 1, n2),
        clean(toks, pos + n1 + 1 + n2, r),
        named(toks, pos + n1 + 1 + n2 + r),
    ensures
        clean(toks, pos, n1 + 1 + n2 + r + 1),
{
    reveal(clean);
}

/// The parts of a block: its expressions, comments, and the brace.
proof fn lemma_block_parts(toks: Seq<TokenView>, pos: int, n: nat, r: nat)
    requires
        clean(toks, pos, n),
        clean(toks, pos + n, r),
        named(toks, pos + n + r + comments(toks, pos + n + r)),
    ensures
        clean(toks, pos, n + r + comments(toks, pos + n + r) + 1),
{
    reveal(clean);
    lemma_comments_taken(toks, pos + n + r);
}

/// The parts of a method.
proof fn lemma_method_parts(toks: Seq<TokenView>, pos: int, f: nat, n: nat)
    requires
        named(toks, pos + comments(toks, pos)),
        named(toks, pos + comments(toks, pos) + 1),
        clean(toks, pos + comments(toks, pos) + 2, f),
        named(toks, pos + comments(toks, pos) + 2 + f),
        named(toks, pos + comments(toks, pos) + 2 + f + 1),
        named(toks, pos + comments(toks, pos) + 2 + f + 2),
        named(
            toks,
            pos + comments(toks, pos) + 2 + f + 3 + comments(
                toks,
                pos + comments(toks, pos) + 2 + f + 3,
            ),
        ),
        clean(
            toks,
            pos + comments(toks, pos) + 2 + f + 3 + comments(
                toks,
                pos + comments(toks, pos) + 2 + f + 3,
            ) + 1,
            n,
        ),
        named(
            toks,
            pos + comments(toks, pos) + 2 + f + 3 + comments(
                toks,
                pos + comments(toks, pos) + 2 + f + 3,
            ) + 1 + n,
        ),
    ensures
        clean(
            toks,
            pos,
            comments(toks, pos) + 2 + f + 3 + comments(toks, pos + comments(toks, pos) + 2 + f + 3)
                + 1 + n + 1,
        ),
{
    reveal(clean);
    lemma_comments_taken(toks, pos);
    lemma_comments_taken(toks, pos + comments(toks, pos) + 2 + f + 3);
}

/// The parts of a class behind its keyword.
proof fn lemma_class_parts(toks: Seq<TokenView>, pos: int, p: nat, f: nat)
    requires
        named(toks, pos),
        clean(toks, pos + 1, p),
        named(toks, pos + 1 + p),
        clean(toks, pos + 1 + p + 1, f),
        named(toks, pos + 1 + p + 1 + f),
        named(toks, pos + 1 + p + 1 + f + 1),
    ensures
        clean(toks, pos, 1 + p + 1 + f + 2),
{
    reveal(clean);
}

/// The comments before a class, its keyword, the class, and what
/// follows.
proof fn lemma_class_step(toks: Seq<TokenView>, pos: int, n: nat, m: nat)
    requires
        named(toks, pos + comments(toks, pos)),
        clean(toks, pos + comments(toks, pos) + 1, n),
        clean(toks, pos + comments(toks, pos) + 1 + n, m),
    ensures
        clean(toks, pos, m + (comments(toks, pos) + 1 + n)),
{
    reveal(clean);
    lemma_comments_taken(toks, pos);
}

/// A name with its type holds no `Error` token.
proof fn lemma_typed_name_taken(toks: Seq<TokenView>, pos: int)
    ensures
        g_typed_name(toks, pos).out matches Some((_, n)) ==> n == 3 && clean(toks, pos, 3),
{
    reveal(g_typed_name);
    reveal(named_type);
    reveal(clean);
}

/// What `Expr` takes.
proof fn lemma_expr_taken(toks: Seq<TokenView>, pos: int)
    ensures
        taken(toks, pos, g_expr(toks, pos)),
    decreases remaining(toks, pos), 22int,
{
    lemma_binary_taken(toks, pos, 3);
}

/// What an expression between comments takes.
proof fn lemma_padded_taken(toks: Seq<TokenView>, pos: int)
    ensures
        taken(toks, pos, g_padded(toks, pos)),
    decreases remaining(toks, pos), 23int,
{
    let c = comments(toks, pos);
    lemma_expr_taken(toks, pos + c);
    match g_expr(toks, pos + c).out {
        None => {},
        Some((_, n)) => {
            lemma_between_comments(toks, pos, n);
        },
    }
}

/// What a chain of operands takes.
proof fn lemma_binary_taken(toks: Seq<TokenView>, pos: int, level: nat)
    ensures
        taken(toks, pos, g_binary(toks, pos, level)),
    decreases remaining(toks, pos), 15 + 2 * level,
{
    if level == 0 {
        lemma_unary_taken(toks, pos);
    } else {
        let first = g_binary(toks, pos, (level - 1) as nat);
        lemma_binary_taken(toks, pos, (level - 1) as nat);
        match first.out {
            None => {},
            Some((lhs, n)) => {
                let rest = g_binary_rest(toks, pos + n, level, lhs, first.far);
                lemma_binary_rest_taken(toks, pos + n, level, lhs, first.far);
                lemma_then(toks, pos, n, rest.used);
            },
        }
    }
}

/// What the rest of a chain takes.
proof fn lemma_binary_rest_taken(
    toks: Seq<TokenView>,
    pos: int,
    level: nat,
    lhs: ExprView,
    far: Far,
)
    ensures
        clean(toks, pos, g_binary_rest(toks, pos, level, lhs, far).used),
    decreases remaining(toks, pos), 0int,
{
    let c1 = comments(toks, pos);
    let p = pos + c1;
    lemma_none(toks, pos);
    if level >= 1 && is_op(toks, p, level) {
        let c2 = comments(toks, p + 1);
        let rhs = g_binary(toks, p + 1 + c2, (level - 1) as nat);
        lemma_named_operator(toks, p, level);
        lemma_binary_taken(toks, p + 1 + c2, (level - 1) as nat);
        match rhs.out {
            None => {},
            Some((r, n)) => {
                let node = binary_node(kind_of(toks, p), lhs, r);
                let far2 = merge(far, rhs.far);
                let rest = g_binary_rest(toks, p + 1 + c2 + n, level, node, far2);
                lemma_binary_rest_taken(toks, p + 1 + c2 + n, level, node, far2);
                lemma_operator_step(toks, pos, n, rest.used);
            },
        }
    }
}

/// What a unary expression takes.
proof fn lemma_unary_taken(toks: Seq<TokenView>, pos: int)
    ensures
        taken(toks, pos, g_unary(toks, pos)),
    decreases remaining(toks, pos), 14int,
{
    if is_kind(toks, pos, TokenKind::Not) || is_kind(toks, pos, TokenKind::Tilde) {
        lemma_unary_taken(toks, pos + 1);
        match g_unary(toks, pos + 1).out {
            None => {},
            Some((_, n)) => {
                lemma_one_then(toks, pos, n);
            },
        }
    } else {
        lemma_postfix_taken(toks, pos);
    }
}

/// What an atom with the dispatches behind it takes.
proof fn lemma_postfix_taken(toks: Seq<TokenView>, pos: int)
    ensures
        taken(toks, pos, g_postfix(toks, pos)),
    decreases remaining(toks, pos), 13int,
{
    let first = g_atom(toks, pos);
    lemma_atom_taken(toks, pos);
    match first.out {
        None => {},
        Some((e, n)) => {
            lemma_postfix_rest_taken(toks, pos + n, e, first.far);
            lemma_then(toks, pos, n, g_postfix_rest(toks, pos + n, e, first.far).used);
        },
    }
}

/// What the dispatches behind a receiver take.
proof fn lemma_postfix_rest_taken(toks: Seq<TokenView>, pos: int, recv: ExprView, far: Far)
    ensures
        clean(toks, pos, g_postfix_rest(toks, pos, recv, far).used),
    decreases remaining(toks, pos), 0int,
{
    lemma_none(toks, pos);
    if is_kind(toks, pos, TokenKind::Dot) {
        let call = g_method_call(toks, pos + 1);
        lemma_method_call_taken(toks, pos + 1);
        match call.out {
            None => {},
            Some(((method, args), n)) => {
                let node = ExprView::Dispatch {
                    expr: Box::new(recv),
                    static_type: None,
                    method,
                    args,
                };
                let far2 = merge(far, call.far);
                lemma_postfix_rest_taken(toks, pos + 1 + n, node, far2);
                lemma_one_then_more(
                    toks,
                    pos,
                    n,
                    g_postfix_rest(toks, pos + 1 + n, node, far2).used,
                );
            },
        }
    } else if is_kind(toks, pos, TokenKind::TypeId) {
        let call = g_static_call(toks, pos + 1);
        lemma_static_call_taken(toks, pos + 1);
        match call.out {
            None => {},
            Some(((typ, method, args), n)) => {
                let node = ExprView::Dispatch {
                    expr: Box::new(recv),
                    static_type: Some(typ),
                    method,
                    args,
                };
                let far2 = merge(far, call.far);
                lemma_postfix_rest_taken(toks, pos + 1 + n, node, far2);
                lemma_one_then_more(
                    toks,
                    pos,
                    n,
                    g_postfix_rest(toks, pos + 1 + n, node, far2).used,
                );
            },
        }
    }
}

/// What the call of a method takes.
proof fn lemma_method_call_taken(toks: Seq<TokenView>, pos: int)
    ensures
        taken(toks, pos, g_method_call(toks, pos)),
    decreases remaining(toks, pos), 25int,
{
    if is_kind(toks, pos, TokenKind::ObjectIdentifier) {
        lemma_call_tail_taken(toks, pos + 1);
        match g_call_tail(toks, pos + 1).out {
            None => {},
            Some((_, n)) => {
                lemma_one_then(toks, pos, n);
            },
        }
    }
}

/// What the call of a method of a named type takes.
proof fn lemma_static_call_taken(toks: Seq<TokenView>, pos: int)
    ensures
        taken(toks, pos, g_static_call(toks, pos)),
    decreases remaining(toks, pos), 26int,
{
    if named_type(toks, pos) is Some && is_kind(toks, pos + 1, TokenKind::Dot) {
        lemma_named_type(toks, pos);
        lemma_method_call_taken(toks, pos + 2);
        match g_method_call(toks, pos + 2).out {
            None => {},
            Some((_, n)) => {
                lemma_two_then(toks, pos, n);
            },
        }
    }
}

/// What the arguments of a call between their parentheses take.
proof fn lemma_call_tail_taken(toks: Seq<TokenView>, pos: int)
    ensures
        taken(toks, pos, g_call_tail(toks, pos)),
    decreases remaining(toks, pos), 24int,
{
    if is_kind(toks, pos, TokenKind::LeftParen) {
        let args = g_args(toks, pos + 1);
        lemma_args_taken(toks, pos + 1);
        if is_kind(toks, pos + 1 + args.used, TokenKind::RightParen) {
            lemma_enclosed(toks, pos, args.used);
        }
    }
}

/// What the arguments of a call take.
proof fn lemma_args_taken(toks: Seq<TokenView>, pos: int)
    ensures
        clean(toks, pos, g_args(toks, pos).used),
    decreases remaining(toks, pos), 23int,
{
    let first = g_expr(toks, pos);
    lemma_none(toks, pos);
    lemma_expr_taken(toks, pos);
    match first.out {
        None => {},
        Some((e, n)) => {
            lemma_args_rest_taken(toks, pos + n, seq![e], first.far);
            lemma_then(toks, pos, n, g_args_rest(toks, pos + n, seq![e], first.far).used);
        },
    }
}

/// What the arguments behind the first take.
proof fn lemma_args_rest_taken(toks: Seq<TokenView>, pos: int, acc: Seq<ExprView>, far: Far)
    ensures
        clean(toks, pos, g_args_rest(toks, pos, acc, far).used),
    decreases remaining(toks, pos), 0int,
{
    lemma_none(toks, pos);
    if is_kind(toks, pos, TokenKind::Comma) {
        let next = g_expr(toks, pos + 1);
        lemma_one(toks, pos);
        lemma_expr_taken(toks, pos + 1);
        match next.out {
            None => {},
            Some((e, n)) => {
                let far2 = merge(far, next.far);
                lemma_args_rest_taken(toks, pos + 1 + n, acc.push(e), far2);
                lemma_one_then_more(
                    toks,
                    pos,
                    n,
                    g_args_rest(toks, pos + 1 + n, acc.push(e), far2).used,
                );
            },
        }
    }
}

/// What an atom between comments takes.
proof fn lemma_atom_taken(toks: Seq<TokenView>, pos: int)
    ensures
        taken(toks, pos, g_atom(toks, pos)),
    decreases remaining(toks, pos), 12int,
{
    let c = comments(toks, pos);
    lemma_atom_core_taken(toks, pos + c);
    match g_atom_core(toks, pos + c).out {
        None => {},
        Some((_, n)) => {
            lemma_between_comments(toks, pos, n);
        },
    }
}

/// What an atom takes.
proof fn lemma_atom_core_taken(toks: Seq<TokenView>, pos: int)
    ensures
        taken(toks, pos, g_atom_core(toks, pos)),
    decreases remaining(toks, pos), 11int,
{
    if is_kind(toks, pos, TokenKind::String) || is_kind(toks, pos, TokenKind::Integer) || is_kind(
        toks,
        pos,
        TokenKind::True,
    ) || is_kind(toks, pos, TokenKind::False) || is_kind(toks, pos, TokenKind::SelfLit) {
        lemma_one(toks, pos);
    } else if is_kind(toks, pos, TokenKind::Isvoid) {
        lemma_expr_taken(toks, pos + 1);
        match g_expr(toks, pos + 1).out {
            None => {},
            Some((_, n)) => {
                lemma_one_then(toks, pos, n);
            },
        }
    } else if is_kind(toks, pos, TokenKind::ObjectIdentifier) {
        let name = text_of(toks, pos);
        lemma_named_tail_taken(toks, pos + 1, name);
        lemma_one_then(toks, pos, g_named_tail(toks, pos + 1, name).used);
    } else if is_kind(toks, pos, TokenKind::New) {
        if named_type(toks, pos + 1) is Some {
            lemma_named_type(toks, pos + 1);
            lemma_two(toks, pos);
        }
    } else {
        lemma_enclosing_taken(toks, pos);
    }
}

/// What a production takes behind one token is taken together with that
/// token.
proof fn lemma_behind(toks: Seq<TokenView>, pos: int, r: Parsed<ExprView>)
    requires
        named(toks, pos),
        taken(toks, pos + 1, r),
    ensures
        taken(toks, pos, r.after(1)),
{
    match r.out {
        None => {},
        Some((_, n)) => {
            lemma_one_then(toks, pos, n);
        },
    }
}

/// What an atom that encloses expressions takes.
proof fn lemma_enclosing_taken(toks: Seq<TokenView>, pos: int)
    ensures
        taken(toks, pos, g_enclosing(toks, pos)),
    decreases remaining(toks, pos), 10int,
{
    if is_kind(toks, pos, TokenKind::Let) {
        lemma_let_tail_taken(toks, pos + 1);
        lemma_behind(toks, pos, g_let_tail(toks, pos + 1));
    } else if is_kind(toks, pos, TokenKind::If) {
        lemma_if_tail_taken(toks, pos + 1);
        lemma_behind(toks, pos, g_if_tail(toks, pos + 1));
    } else if is_kind(toks, pos, TokenKind::While) {
        lemma_while_tail_taken(toks, pos + 1);
        lemma_behind(toks, pos, g_while_tail(toks, pos + 1));
    } else if is_kind(toks, pos, TokenKind::Case) {
        lemma_case_tail_taken(toks, pos + 1);
        lemma_behind(toks, pos, g_case_tail(toks, pos + 1));
    } else if is_kind(toks, pos, TokenKind::LeftBrace) {
        lemma_block_tail_taken(toks, pos + 1);
        lemma_behind(toks, pos, g_block_tail(toks, pos + 1));
    } else if is_kind(toks, pos, TokenKind::LeftParen) {
        lemma_expr_taken(toks, pos + 1);
        match g_expr(toks, pos + 1).out {
            None => {},
            Some((_, n)) => {
                if is_kind(toks, pos + 1 + n, TokenKind::RightParen) {
                    lemma_enclosed(toks, pos, n);
                }
            },
        }
    }
}

/// What follows an identifier at the start of an atom, as far as it is
/// taken.
proof fn lemma_named_tail_taken(toks: Seq<TokenView>, pos: int, name: Seq<char>)
    ensures
        clean(toks, pos, g_named_tail(toks, pos, name).used),
    decreases remaining(toks, pos), 25int,
{
    lemma_none(toks, pos);
    if is_kind(toks, pos, TokenKind::Assign) {
        lemma_expr_taken(toks, pos + 1);
        match g_expr(toks, pos + 1).out {
            None => {},
            Some((_, n)) => {
                lemma_one_then(toks, pos, n);
            },
        }
    }
    lemma_call_tail_taken(toks, pos);
}

/// What a declaration takes.
proof fn lemma_declaration_taken(toks: Seq<TokenView>, pos: int)
    ensures
        taken(toks, pos, g_declaration(toks, pos)),
    decreases remaining(toks, pos), 1int,
{
    lemma_typed_name_taken(toks, pos);
    if g_typed_name(toks, pos).out is Some && is_kind(toks, pos + 3, TokenKind::Assign) {
        lemma_expr_taken(toks, pos + 4);
        match g_expr(toks, pos + 4).out {
            None => {},
            Some((_, n)) => {
                lemma_four_then(toks, pos, n);
            },
        }
    }
}

/// What a `let` takes behind its keyword.
proof fn lemma_let_tail_taken(toks: Seq<TokenView>, pos: int)
    ensures
        taken(toks, pos, g_let_tail(toks, pos)),
    decreases remaining(toks, pos), 24int,
{
    let first = g_declaration(toks, pos);
    lemma_declaration_taken(toks, pos);
    match first.out {
        None => {},
        Some((d, n)) => {
            let rest = g_let_rest(toks, pos + n, seq![as_binding(d)], first.far);
            let p = pos + n + rest.used;
            lemma_let_rest_taken(toks, pos + n, seq![as_binding(d)], first.far);
            if is_kind(toks, p, TokenKind::In) {
                lemma_padded_taken(toks, p + 1);
                match g_padded(toks, p + 1).out {
                    None => {},
                    Some((_, m)) => {
                        lemma_let_parts(toks, pos, n, rest.used, m);
                    },
                }
            }
        },
    }
}

/// What the bindings behind the first take.
proof fn lemma_let_rest_taken(
    toks: Seq<TokenView>,
    pos: int,
    acc: Seq<LetBindingView>,
    far: Far,
)
    ensures
        clean(toks, pos, g_let_rest(toks, pos, acc, far).used),
    decreases remaining(toks, pos), 0int,
{
    lemma_none(toks, pos);
    if is_kind(toks, pos, TokenKind::Comma) {
        let next = g_declaration(toks, pos + 1);
        lemma_declaration_taken(toks, pos + 1);
        match next.out {
            None => {},
            Some((d, n)) => {
                let more = acc.push(as_binding(d));
                let far2 = merge(far, next.far);
                lemma_let_rest_taken(toks, pos + 1 + n, more, far2);
                lemma_one_then_more(
                    toks,
                    pos,
                    n,
                    g_let_rest(toks, pos + 1 + n, more, far2).used,
                );
            },
        }
    }
}

/// What the two branches of an `if` take.
proof fn lemma_if_branches_taken(toks: Seq<TokenView>, pos: int)
    ensures
        taken(toks, pos, g_if_branches(toks, pos)),
    decreases remaining(toks, pos), 24int,
{
    lemma_padded_taken(toks, pos);
    match g_padded(toks, pos).out {
        None => {},
        Some((_, n1)) => {
            let p1 = pos + n1;
            if is_kind(toks, p1, TokenKind::Else) {
                lemma_padded_taken(toks, p1 + 1);
                match g_padded(toks, p1 + 1).out {
                    None => {},
                    Some((_, n2)) => {
                        if is_kind(toks, p1 + 1 + n2, TokenKind::Fi) {
                            lemma_joined_closed(toks, pos, n1, n2);
                        }
                    },
                }
            }
        },
    }
}

/// What an `if` takes behind its keyword.
proof fn lemma_if_tail_taken(toks: Seq<TokenView>, pos: int)
    ensures
        taken(toks, pos, g_if_tail(toks, pos)),
    decreases remaining(toks, pos), 25int,
{
    lemma_padded_taken(toks, pos);
    match g_padded(toks, pos).out {
        None => {},
        Some((_, n1)) => {
            let p1 = pos + n1;
            if is_kind(toks, p1, TokenKind::Then) {
                lemma_if_branches_taken(toks, p1 + 1);
                match g_if_branches(toks, p1 + 1).out {
                    None => {},
                    Some((_, n2)) => {
                        lemma_joined(toks, pos, n1, n2);
                    },
                }
            }
        },
    }
}

/// What a `while` takes behind its keyword.
proof fn lemma_while_tail_taken(toks: Seq<TokenView>, pos: int)
    ensures
        taken(toks, pos, g_while_tail(toks, pos)),
    decreases remaining(toks, pos), 24int,
{
    lemma_padded_taken(toks, pos);
    match g_padded(toks, pos).out {
        None => {},
        Some((_, n1)) => {
            let p1 = pos + n1;
            if is_kind(toks, p1, TokenKind::Loop) {
                lemma_padded_taken(toks, p1 + 1);
                match g_padded(toks, p1 + 1).out {
                    None => {},
                    Some((_, n2)) => {
                        if is_kind(toks, p1 + 1 + n2, TokenKind::Pool) {
                            lemma_joined_closed(toks, pos, n1, n2);
                        }
                    },
                }
            }
        },
    }
}

/// What a branch of a `case` takes.
proof fn lemma_case_branch_taken(toks: Seq<TokenView>, pos: int)
    ensures
        taken(toks, pos, g_case_branch(toks, pos)),
    decreases remaining(toks, pos), 1int,
{
    lemma_typed_name_taken(toks, pos);
    if g_typed_name(toks, pos).out is Some && is_kind(toks, pos + 3, TokenKind::DoubleArrow) {
        lemma_expr_taken(toks, pos + 4);
        match g_expr(toks, pos + 4).out {
            None => {},
            Some((_, n)) => {
                lemma_four_then(toks, pos, n);
            },
        }
    }
}

/// What a `case` takes behind its keyword.
proof fn lemma_case_tail_taken(toks: Seq<TokenView>, pos: int)
    ensures
        taken(toks, pos, g_case_tail(toks, pos)),
    decreases remaining(toks, pos), 24int,
{
    let subject = g_padded(toks, pos);
    lemma_padded_taken(toks, pos);
    match subject.out {
        None => {},
        Some((_, n1)) => {
            let p1 = pos + n1;
            if is_kind(toks, p1, TokenKind::Of) {
                let first = g_case_branch(toks, p1 + 1);
                lemma_case_branch_taken(toks, p1 + 1);
                match first.out {
                    None => {},
                    Some((b, n2)) => {
                        let far2 = merge(subject.far, first.far);
                        let rest = g_case_rest(toks, p1 + 1 + n2, seq![b], far2);
                        lemma_case_rest_taken(toks, p1 + 1 + n2, seq![b], far2);
                        if is_kind(toks, p1 + 1 + n2 + rest.used, TokenKind::Esac) {
                            lemma_case_parts(toks, pos, n1, n2, rest.used);
                        }
                    },
                }
            }
        },
    }
}

/// What the branches behind the first take.
proof fn lemma_case_rest_taken(
    toks: Seq<TokenView>,
    pos: int,
    acc: Seq<CaseBranchView>,
    far: Far,
)
    ensures
        clean(toks, pos, g_case_rest(toks, pos, acc, far).used),
    decreases remaining(toks, pos), 0int,
{
    lemma_none(toks, pos);
    if is_kind(toks, pos, TokenKind::Semicolon) {
        let next = g_case_branch(toks, pos + 1);
        lemma_one(toks, pos);
        lemma_case_branch_taken(toks, pos + 1);
        match next.out {
            None => {},
            Some((b, n)) => {
                let far2 = merge(far, next.far);
                lemma_case_rest_taken(toks, pos + 1 + n, acc.push(b), far2);
                lemma_one_then_more(
                    toks,
                    pos,
                    n,
                    g_case_rest(toks, pos + 1 + n, acc.push(b), far2).used,
                );
            },
        }
    }
}

/// What a block takes behind its opening brace.
proof fn lemma_block_tail_taken(toks: Seq<TokenView>, pos: int)
    ensures
        taken(toks, pos, g_block_tail(toks, pos)),
    decreases remaining(toks, pos), 24int,
{
    let first = g_padded(toks, pos);
    lemma_padded_taken(toks, pos);
    match first.out {
        None => {},
        Some((e, n)) => {
            let rest = g_block_rest(toks, pos + n, seq![e], first.far);
            let p = pos + n + rest.used;
            lemma_block_rest_taken(toks, pos + n, seq![e], first.far);
            if is_kind(toks, p + comments(toks, p), TokenKind::RightBrace) {
                lemma_block_parts(toks, pos, n, rest.used);
            }
        },
    }
}

/// What the expressions of a block behind the first take.
proof fn lemma_block_rest_taken(toks: Seq<TokenView>, pos: int, acc: Seq<ExprView>, far: Far)
    ensures
        clean(toks, pos, g_block_rest(toks, pos, acc, far).used),
    decreases remaining(toks, pos), 0int,
{
    lemma_none(toks, pos);
    if is_kind(toks, pos, TokenKind::Dot) || is_kind(toks, pos, TokenKind::Semicolon) {
        let next = g_padded(toks, pos + 1);
        lemma_one(toks, pos);
        lemma_padded_taken(toks, pos + 1);
        match next.out {
            None => {},
            Some((e, n)) => {
                let far2 = merge(far, next.far);
                lemma_block_rest_taken(toks, pos + 1 + n, acc.push(e), far2);
                lemma_one_then_more(
                    toks,
                    pos,
                    n,
                    g_block_rest(toks, pos + 1 + n, acc.push(e), far2).used,
                );
            },
        }
    }
}

/// What the formals behind the first take.
proof fn lemma_formals_rest_taken(toks: Seq<TokenView>, pos: int, acc: Seq<FormalView>, far: Far)
    ensures
        clean(toks, pos, g_formals_rest(toks, pos, acc, far).used),
    decreases remaining(toks, pos),
{
    lemma_none(toks, pos);
    if is_kind(toks, pos, TokenKind::Comma) {
        let next = g_typed_name(toks, pos + 1);
        lemma_typed_name_taken(toks, pos + 1);
        match next.out {
            None => {},
            Some((f, _)) => {
                let more = acc.push(as_formal(f));
                let far2 = merge(far, next.far);
                lemma_four(toks, pos);
                lemma_formals_rest_taken(toks, pos + 4, more, far2);
                lemma_then(toks, pos, 4, g_formals_rest(toks, pos + 4, more, far2).used);
            },
        }
    }
}

/// What the formals of a method take.
proof fn lemma_formals_taken(toks: Seq<TokenView>, pos: int)
    ensures
        clean(toks, pos, g_formals(toks, pos).used),
{
    let first = g_typed_name(toks, pos);
    lemma_none(toks, pos);
    lemma_typed_name_taken(toks, pos);
    match first.out {
        None => {},
        Some((f, _)) => {
            let one = seq![as_formal(f)];
            lemma_formals_rest_taken(toks, pos + 3, one, first.far);
            lemma_then(toks, pos, 3, g_formals_rest(toks, pos + 3, one, first.far).used);
        },
    }
}

/// What a method takes.
proof fn lemma_method_taken(toks: Seq<TokenView>, pos: int)
    ensures
        taken(toks, pos, g_method(toks, pos)),
{
    reveal(g_method);
    let c1 = comments(toks, pos);
    let p = pos + c1;
    let formals = g_formals(toks, p + 2);
    let q = p + 2 + formals.used;
    let c2 = comments(toks, q + 3);
    let r = q + 3 + c2;
    lemma_formals_taken(toks, p + 2);
    lemma_expr_taken(toks, r + 1);
    match g_expr(toks, r + 1).out {
        None => {},
        Some((_, n)) => {
            if g_method(toks, pos).out is Some {
                lemma_named_type(toks, q + 2);
                lemma_method_parts(toks, pos, formals.used, n);
            }
        },
    }
}

/// What a feature takes.
proof fn lemma_feature_taken(toks: Seq<TokenView>, pos: int)
    ensures
        taken(toks, pos, g_feature(toks, pos)),
{
    reveal(g_feature);
    lemma_method_taken(toks, pos);
    lemma_declaration_taken(toks, pos);
}

/// What the features of a class take.
proof fn lemma_features_taken(toks: Seq<TokenView>, pos: int, acc: Seq<FeatureView>, far: Far)
    ensures
        clean(toks, pos, g_features(toks, pos, acc, far).used),
    decreases remaining(toks, pos),
{
    let next = g_feature(toks, pos);
    lemma_none(toks, pos);
    lemma_feature_taken(toks, pos);
    match next.out {
        None => {},
        Some((f, n)) => {
            if is_kind(toks, pos + n, TokenKind::Semicolon) {
                let far2 = merge(far, next.far);
                lemma_features_taken(toks, pos + n + 1, acc.push(f), far2);
                lemma_joined(
                    toks,
                    pos,
                    n,
                    g_features(toks, pos + n + 1, acc.push(f), far2).used,
                );
            }
        },
    }
}

/// What the words that name the parent of a class take.
proof fn lemma_parent_taken(toks: Seq<TokenView>, pos: int)
    ensures
        clean(toks, pos, g_parent(toks, pos).used),
{
    reveal(g_parent);
    lemma_none(toks, pos);
    if is_kind(toks, pos, TokenKind::Inherits) && named_type(toks, pos + 1) is Some {
        lemma_named_type(toks, pos + 1);
        lemma_two(toks, pos);
    }
}

/// What a class takes behind its keyword.
proof fn lemma_class_taken(toks: Seq<TokenView>, pos: int)
    ensures
        taken(toks, pos, g_class_tail(toks, pos)),
{
    reveal(g_class_tail);
    let parent = g_parent(toks, pos + 1);
    let p = pos + 1 + parent.used;
    let features = g_features(toks, p + 1, Seq::empty(), parent.far);
    lemma_parent_taken(toks, pos + 1);
    lemma_features_taken(toks, p + 1, Seq::empty(), parent.far);
    match g_class_tail(toks, pos).out {
        None => {},
        Some(_) => {
            lemma_named_type(toks, pos);
            lemma_class_parts(toks, pos, parent.used, features.used);
        },
    }
}

/// What the classes of a program take, with the comments between them.
proof fn lemma_classes_taken(toks: Seq<TokenView>, pos: int, acc: Seq<ClassView>, far: Far)
    ensures
        clean(toks, pos, g_classes(toks, pos, acc, far).used),
    decreases remaining(toks, pos),
{
    let c = comments(toks, pos);
    let p = pos + c;
    lemma_comments_taken(toks, pos);
    if is_kind(toks, p, TokenKind::Class) {
        let class = g_class_tail(toks, p + 1);
        lemma_class_taken(toks, p + 1);
        match class.out {
            None => {},
            Some((cl, n)) => {
                let far2 = merge(far, class.far);
                lemma_classes_taken(toks, p + 1 + n, acc.push(cl), far2);
                lemma_class_step(
                    toks,
                    pos,
                    n,
                    g_classes(toks, p + 1 + n, acc.push(cl), far2).used,
                );
            },
        }
    }
}

/// A token sequence that holds the `Error` token is no program: a text
/// with a stretch that is no token does not parse.
pub proof fn lemma_error_token_is_no_program(toks: Seq<TokenView>, at: int)
    requires
        0 <= at < toks.len(),
        toks[at].kind == TokenKind::Error,
    ensures
        g_program(toks) is Err,
{
    lemma_classes_taken(toks, 0, Seq::empty(), far_none());
    lemma_error_is_not_taken(toks, at);
}

/// A token sequence that holds the `Error` token is no expression.
pub proof fn lemma_error_token_is_no_expression(toks: Seq<TokenView>, at: int)
    requires
        0 <= at < toks.len(),
        toks[at].kind == TokenKind::Error,
    ensures
        g_expression(toks) is Err,
{
    lemma_padded_taken(toks, 0);
    lemma_error_is_not_taken(toks, at);
}

/// A text with a stretch that is no token is no program: the `Error` token
/// that stands for the stretch in the token stream is taken by nothing.
pub proof fn lemma_lexical_failure_is_no_program(src: Seq<u8>, at: int)
    requires
        0 <= at < lexemes(src, 0).len(),
        lexemes(src, 0)[at].found is Err,
    ensures
        g_program(stream_views(lexemes(src, 0))) is Err,
{
    lemma_error_token_is_no_program(stream_views(lexemes(src, 0)), at);
}

/// Where the `Error` token stands, the tokens from the start on do not
/// reach to the end without it.
proof fn lemma_error_is_not_taken(toks: Seq<TokenView>, at: int)
    requires
        0 <= at < toks.len(),
        toks[at].kind == TokenKind::Error,
    ensures
        !clean(toks, 0, toks.len()),
{
    reveal(kind_of);
    reveal(clean);
    assert(kind_of(toks, at) == TokenKind::Error);
}

} // verus!
