//! What the grammar yields, it can yield again: every tree that comes out
//! of a parse is one that is read back from what is written of it.

use vstd::prelude::*;
use crate::ast::{CaseBranchView, ClassView, ExprView, FeatureView, LetBindingView, ProgramView};
use crate::grammar::{
    as_binding, binary_node, comments, far_none, g_args, g_args_rest, g_atom, g_atom_core, g_binary,
    g_binary_rest, g_block_rest, g_block_tail, g_call_tail, g_case_branch, g_case_rest, g_case_tail,
    g_class_tail, g_classes, g_declaration, g_enclosing, g_expr, g_expression, g_feature,
    g_features, g_formals, g_if_branches, g_if_tail, g_let_rest, g_let_tail, g_method,
    g_method_call, g_named_tail, g_padded, g_parent, g_postfix, g_postfix_rest, g_program,
    g_static_call, g_unary, g_while_tail, is_kind, is_op, kind_of, merge, named_type, number_of,
    remaining, text_of, Far, Parsed,
};
use crate::readback::{
    all_readable, branches_readable, lemma_expression_reads_back, values_readable,
};
use crate::readback_program::lemma_program_reads_back;
use crate::token::{TokenKind, TokenView};
use crate::written::{
    readable, readable_class, readable_feature, readable_program, written, written_program,
};

verus! {

/// What `r` yields, where it yields an expression, is one that the
/// grammar can yield.
pub open spec fn sound(r: Parsed<ExprView>) -> bool {
    r.out matches Some((e, _)) ==> readable(e)
}

/// The node of a binary operator is one that the grammar can yield where
/// its operands are.
proof fn lemma_binary_node(op: TokenKind, lhs: ExprView, rhs: ExprView)
    requires
        readable(lhs),
        readable(rhs),
    ensures
        readable(binary_node(op, lhs, rhs)),
{
    reveal(binary_node);
    reveal_with_fuel(readable, 2);
}

/// A `Not` node and an `IsVoid` node are ones that the grammar can yield
/// where the expression in them is.
proof fn lemma_unary_nodes(e: ExprView)
    requires
        readable(e),
    ensures
        readable(ExprView::Not(Box::new(e))),
        readable(ExprView::IsVoid(Box::new(e))),
{
    reveal_with_fuel(readable, 2);
}

/// The nodes without an expression in them are ones that the grammar can
/// yield.
proof fn lemma_leaves(text: Seq<char>, number: int)
    ensures
        readable(ExprView::String(text)),
        readable(ExprView::Integer(number)),
        readable(ExprView::True),
        readable(ExprView::False),
        readable(ExprView::Id(text)),
        readable(ExprView::New(text)),
{
    reveal_with_fuel(readable, 1);
}

/// An assignment is one that the grammar can yield where its value is.
proof fn lemma_assign_node(name: Seq<char>, e: ExprView)
    requires
        readable(e),
    ensures
        readable(ExprView::Assign { name, expr: Box::new(e) }),
{
    reveal_with_fuel(readable, 2);
}

/// A call is one that the grammar can yield where its arguments are.
proof fn lemma_call_node(name: Seq<char>, args: Seq<ExprView>)
    requires
        all_readable(args),
    ensures
        readable(ExprView::FuncCall { name, args }),
{
    reveal_with_fuel(readable, 1);
}

/// A dispatch is one that the grammar can yield where its receiver and
/// its arguments are.
proof fn lemma_dispatch_node(
    recv: ExprView,
    static_type: Option<Seq<char>>,
    method: Seq<char>,
    args: Seq<ExprView>,
)
    requires
        readable(recv),
        all_readable(args),
    ensures
        readable(ExprView::Dispatch { expr: Box::new(recv), static_type, method, args }),
{
    reveal_with_fuel(readable, 2);
}

/// An `if` is one that the grammar can yield where its three expressions
/// are.
proof fn lemma_if_node(c: ExprView, t: ExprView, e: ExprView)
    requires
        readable(c),
        readable(t),
        readable(e),
    ensures
        readable(
            ExprView::If {
                cond: Box::new(c),
                then_branch: Box::new(t),
                else_branch: Box::new(e),
            },
        ),
{
    reveal_with_fuel(readable, 2);
}

/// A `while` is one that the grammar can yield where its two expressions
/// are.
proof fn lemma_while_node(c: ExprView, b: ExprView)
    requires
        readable(c),
        readable(b),
    ensures
        readable(ExprView::While { cond: Box::new(c), body: Box::new(b) }),
{
    reveal_with_fuel(readable, 2);
}

/// A block is one that the grammar can yield where it holds an expression
/// and all it holds are.
proof fn lemma_block_node(items: Seq<ExprView>)
    requires
        items.len() >= 1,
        all_readable(items),
    ensures
        readable(ExprView::Block(items)),
{
    reveal_with_fuel(readable, 1);
}

/// A `let` is one that the grammar can yield where it has a binding and
/// the initial values and the body are.
proof fn lemma_let_node(bindings: Seq<LetBindingView>, body: ExprView)
    requires
        bindings.len() >= 1,
        values_readable(bindings),
        readable(body),
    ensures
        readable(ExprView::Let { bindings, body: Box::new(body) }),
{
    reveal_with_fuel(readable, 2);
}

/// A `case` is one that the grammar can yield where it has a branch and
/// its expressions are.
proof fn lemma_case_node(subject: ExprView, branches: Seq<CaseBranchView>)
    requires
        branches.len() >= 1,
        branches_readable(branches),
        readable(subject),
    ensures
        readable(ExprView::Case { expr: Box::new(subject), branches }),
{
    reveal_with_fuel(readable, 2);
}

/// What `Expr` yields.
pub proof fn lemma_expr_yields(toks: Seq<TokenView>, pos: int)
    ensures
        sound(g_expr(toks, pos)),
    decreases remaining(toks, pos), 22int,
{
    lemma_binary_yields(toks, pos, 3);
}

/// What an expression between comments yields.
proof fn lemma_padded_yields(toks: Seq<TokenView>, pos: int)
    ensures
        sound(g_padded(toks, pos)),
    decreases remaining(toks, pos), 23int,
{
    lemma_expr_yields(toks, pos + comments(toks, pos));
}

/// What a chain of operands yields.
proof fn lemma_binary_yields(toks: Seq<TokenView>, pos: int, level: nat)
    ensures
        sound(g_binary(toks, pos, level)),
    decreases remaining(toks, pos), 15 + 2 * level,
{
    if level == 0 {
        lemma_unary_yields(toks, pos);
    } else {
        let first = g_binary(toks, pos, (level - 1) as nat);
        lemma_binary_yields(toks, pos, (level - 1) as nat);
        match first.out {
            None => {},
            Some((lhs, n)) => {
                lemma_binary_rest_yields(toks, pos + n, level, lhs, first.far);
            },
        }
    }
}

/// What the rest of a chain yields.
proof fn lemma_binary_rest_yields(
    toks: Seq<TokenView>,
    pos: int,
    level: nat,
    lhs: ExprView,
    far: Far,
)
    requires
        readable(lhs),
    ensures
        readable(g_binary_rest(toks, pos, level, lhs, far).value),
    decreases remaining(toks, pos), 0int,
{
    let c1 = comments(toks, pos);
    let p = pos + c1;
    if level >= 1 && is_op(toks, p, level) {
        let c2 = comments(toks, p + 1);
        let rhs = g_binary(toks, p + 1 + c2, (level - 1) as nat);
        lemma_binary_yields(toks, p + 1 + c2, (level - 1) as nat);
        match rhs.out {
            None => {},
            Some((r, n)) => {
                lemma_binary_node(kind_of(toks, p), lhs, r);
                lemma_binary_rest_yields(
                    toks,
                    p + 1 + c2 + n,
                    level,
                    binary_node(kind_of(toks, p), lhs, r),
                    merge(far, rhs.far),
                );
            },
        }
    }
}

/// What a unary expression yields.
proof fn lemma_unary_yields(toks: Seq<TokenView>, pos: int)
    ensures
        sound(g_unary(toks, pos)),
    decreases remaining(toks, pos), 14int,
{
    if is_kind(toks, pos, TokenKind::Not) || is_kind(toks, pos, TokenKind::Tilde) {
        let inner = g_unary(toks, pos + 1);
        lemma_unary_yields(toks, pos + 1);
        match inner.out {
            None => {},
            Some((e, _)) => {
                lemma_unary_nodes(e);
            },
        }
    } else {
        lemma_postfix_yields(toks, pos);
    }
}

/// What an atom with the dispatches behind it yields.
proof fn lemma_postfix_yields(toks: Seq<TokenView>, pos: int)
    ensures
        sound(g_postfix(toks, pos)),
    decreases remaining(toks, pos), 13int,
{
    let first = g_atom(toks, pos);
    lemma_atom_yields(toks, pos);
    match first.out {
        None => {},
        Some((e, n)) => {
            lemma_postfix_rest_yields(toks, pos + n, e, first.far);
        },
    }
}

/// What the dispatches behind a receiver yield.
proof fn lemma_postfix_rest_yields(toks: Seq<TokenView>, pos: int, recv: ExprView, far: Far)
    requires
        readable(recv),
    ensures
        readable(g_postfix_rest(toks, pos, recv, far).value),
    decreases remaining(toks, pos), 0int,
{
    if is_kind(toks, pos, TokenKind::Dot) {
        let call = g_method_call(toks, pos + 1);
        lemma_method_call_yields(toks, pos + 1);
        match call.out {
            None => {},
            Some(((method, args), n)) => {
                lemma_dispatch_node(recv, None, method, args);
                lemma_postfix_rest_yields(
                    toks,
                    pos + 1 + n,
                    ExprView::Dispatch { expr: Box::new(recv), static_type: None, method, args },
                    merge(far, call.far),
                );
            },
        }
    } else if is_kind(toks, pos, TokenKind::TypeId) {
        let call = g_static_call(toks, pos + 1);
        lemma_static_call_yields(toks, pos + 1);
        match call.out {
            None => {},
            Some(((typ, method, args), n)) => {
                lemma_dispatch_node(recv, Some(typ), method, args);
                lemma_postfix_rest_yields(
                    toks,
                    pos + 1 + n,
                    ExprView::Dispatch {
                        expr: Box::new(recv),
                        static_type: Some(typ),
                        method,
                        args,
                    },
                    merge(far, call.far),
                );
            },
        }
    }
}

/// What the call of a method yields.
proof fn lemma_method_call_yields(toks: Seq<TokenView>, pos: int)
    ensures
        g_method_call(toks, pos).out matches Some((call, _)) ==> all_readable(call.1),
    decreases remaining(toks, pos), 25int,
{
    lemma_call_tail_yields(toks, pos + 1);
}

/// What the call of a method of a named type yields.
proof fn lemma_static_call_yields(toks: Seq<TokenView>, pos: int)
    ensures
        g_static_call(toks, pos).out matches Some((call, _)) ==> all_readable(call.2),
    decreases remaining(toks, pos), 26int,
{
    lemma_method_call_yields(toks, pos + 2);
}

/// What the arguments of a call between their parentheses yield.
proof fn lemma_call_tail_yields(toks: Seq<TokenView>, pos: int)
    ensures
        g_call_tail(toks, pos).out matches Some((args, _)) ==> all_readable(args),
    decreases remaining(toks, pos), 24int,
{
    lemma_args_yields(toks, pos + 1);
}

/// What the arguments of a call yield.
proof fn lemma_args_yields(toks: Seq<TokenView>, pos: int)
    ensures
        all_readable(g_args(toks, pos).value),
    decreases remaining(toks, pos), 23int,
{
    let first = g_expr(toks, pos);
    lemma_expr_yields(toks, pos);
    match first.out {
        None => {},
        Some((e, n)) => {
            lemma_args_rest_yields(toks, pos + n, seq![e], first.far);
        },
    }
}

/// What the arguments behind the first yield.
proof fn lemma_args_rest_yields(toks: Seq<TokenView>, pos: int, acc: Seq<ExprView>, far: Far)
    requires
        all_readable(acc),
    ensures
        all_readable(g_args_rest(toks, pos, acc, far).value),
    decreases remaining(toks, pos), 0int,
{
    if is_kind(toks, pos, TokenKind::Comma) {
        let next = g_expr(toks, pos + 1);
        lemma_expr_yields(toks, pos + 1);
        match next.out {
            None => {},
            Some((e, n)) => {
                lemma_args_rest_yields(toks, pos + 1 + n, acc.push(e), merge(far, next.far));
            },
        }
    }
}

/// What an atom between comments yields.
proof fn lemma_atom_yields(toks: Seq<TokenView>, pos: int)
    ensures
        sound(g_atom(toks, pos)),
    decreases remaining(toks, pos), 12int,
{
    lemma_atom_core_yields(toks, pos + comments(toks, pos));
}

/// What an atom yields.
proof fn lemma_atom_core_yields(toks: Seq<TokenView>, pos: int)
    ensures
        sound(g_atom_core(toks, pos)),
    decreases remaining(toks, pos), 11int,
{
    lemma_leaves(text_of(toks, pos), number_of(toks, pos));
    lemma_leaves("self"@, 0);
    if is_kind(toks, pos, TokenKind::String) {
    } else if is_kind(toks, pos, TokenKind::Integer) {
    } else if is_kind(toks, pos, TokenKind::True) {
    } else if is_kind(toks, pos, TokenKind::False) {
    } else if is_kind(toks, pos, TokenKind::Isvoid) {
        let inner = g_expr(toks, pos + 1);
        lemma_expr_yields(toks, pos + 1);
        match inner.out {
            None => {},
            Some((e, _)) => {
                lemma_unary_nodes(e);
            },
        }
    } else if is_kind(toks, pos, TokenKind::SelfLit) {
    } else if is_kind(toks, pos, TokenKind::ObjectIdentifier) {
        lemma_named_tail_yields(toks, pos + 1, text_of(toks, pos));
    } else if is_kind(toks, pos, TokenKind::New) {
        match named_type(toks, pos + 1) {
            None => {},
            Some(t) => {
                lemma_leaves(t, 0);
            },
        }
    } else {
        lemma_enclosing_yields(toks, pos);
    }
}

/// What an atom that encloses expressions yields.
proof fn lemma_enclosing_yields(toks: Seq<TokenView>, pos: int)
    ensures
        sound(g_enclosing(toks, pos)),
    decreases remaining(toks, pos), 10int,
{
    if is_kind(toks, pos, TokenKind::Let) {
        lemma_let_tail_yields(toks, pos + 1);
    } else if is_kind(toks, pos, TokenKind::If) {
        lemma_if_tail_yields(toks, pos + 1);
    } else if is_kind(toks, pos, TokenKind::While) {
        lemma_while_tail_yields(toks, pos + 1);
    } else if is_kind(toks, pos, TokenKind::Case) {
        lemma_case_tail_yields(toks, pos + 1);
    } else if is_kind(toks, pos, TokenKind::LeftBrace) {
        lemma_block_tail_yields(toks, pos + 1);
    } else if is_kind(toks, pos, TokenKind::LeftParen) {
        lemma_expr_yields(toks, pos + 1);
    }
}

/// What an identifier with what follows it yields.
proof fn lemma_named_tail_yields(toks: Seq<TokenView>, pos: int, name: Seq<char>)
    ensures
        readable(g_named_tail(toks, pos, name).value),
    decreases remaining(toks, pos), 25int,
{
    lemma_leaves(name, 0);
    if is_kind(toks, pos, TokenKind::Assign) {
        lemma_expr_yields(toks, pos + 1);
        match g_expr(toks, pos + 1).out {
            None => {},
            Some((e, _)) => {
                lemma_assign_node(name, e);
            },
        }
    }
    lemma_call_tail_yields(toks, pos);
    match g_call_tail(toks, pos).out {
        None => {},
        Some((args, _)) => {
            lemma_call_node(name, args);
        },
    }
}

/// What a declaration yields.
pub proof fn lemma_declaration_yields(toks: Seq<TokenView>, pos: int)
    ensures
        g_declaration(toks, pos).out matches Some((d, _)) ==> (d.2 matches Some(e) ==> readable(e)),
    decreases remaining(toks, pos), 1int,
{
    if is_kind(toks, pos + 3, TokenKind::Assign) {
        lemma_expr_yields(toks, pos + 4);
    }
}

/// What a `let` yields.
proof fn lemma_let_tail_yields(toks: Seq<TokenView>, pos: int)
    ensures
        sound(g_let_tail(toks, pos)),
    decreases remaining(toks, pos), 24int,
{
    let first = g_declaration(toks, pos);
    lemma_declaration_yields(toks, pos);
    match first.out {
        None => {},
        Some((d, n)) => {
            let rest = g_let_rest(toks, pos + n, seq![as_binding(d)], first.far);
            lemma_let_rest_yields(toks, pos + n, seq![as_binding(d)], first.far);
            let p = pos + n + rest.used;
            if is_kind(toks, p, TokenKind::In) {
                lemma_padded_yields(toks, p + 1);
                match g_padded(toks, p + 1).out {
                    None => {},
                    Some((e, _)) => {
                        lemma_let_node(rest.value, e);
                    },
                }
            }
        },
    }
}

/// What the bindings behind the first yield.
proof fn lemma_let_rest_yields(
    toks: Seq<TokenView>,
    pos: int,
    acc: Seq<LetBindingView>,
    far: Far,
)
    requires
        acc.len() >= 1,
        values_readable(acc),
    ensures
        values_readable(g_let_rest(toks, pos, acc, far).value),
        g_let_rest(toks, pos, acc, far).value.len() >= 1,
    decreases remaining(toks, pos), 0int,
{
    if is_kind(toks, pos, TokenKind::Comma) {
        let next = g_declaration(toks, pos + 1);
        lemma_declaration_yields(toks, pos + 1);
        match next.out {
            None => {},
            Some((d, n)) => {
                lemma_let_rest_yields(
                    toks,
                    pos + 1 + n,
                    acc.push(as_binding(d)),
                    merge(far, next.far),
                );
            },
        }
    }
}

/// What the two branches of an `if` yield.
proof fn lemma_if_branches_yields(toks: Seq<TokenView>, pos: int)
    ensures
        g_if_branches(toks, pos).out matches Some((both, _)) ==> readable(both.0) && readable(
            both.1,
        ),
    decreases remaining(toks, pos), 24int,
{
    let yes = g_padded(toks, pos);
    lemma_padded_yields(toks, pos);
    match yes.out {
        None => {},
        Some((_, n1)) => {
            if is_kind(toks, pos + n1, TokenKind::Else) {
                lemma_padded_yields(toks, pos + n1 + 1);
            }
        },
    }
}

/// What an `if` yields.
proof fn lemma_if_tail_yields(toks: Seq<TokenView>, pos: int)
    ensures
        sound(g_if_tail(toks, pos)),
    decreases remaining(toks, pos), 25int,
{
    let cond = g_padded(toks, pos);
    lemma_padded_yields(toks, pos);
    match cond.out {
        None => {},
        Some((c, n1)) => {
            if is_kind(toks, pos + n1, TokenKind::Then) {
                lemma_if_branches_yields(toks, pos + n1 + 1);
                match g_if_branches(toks, pos + n1 + 1).out {
                    None => {},
                    Some(((t, e), _)) => {
                        lemma_if_node(c, t, e);
                    },
                }
            }
        },
    }
}

/// What a `while` yields.
proof fn lemma_while_tail_yields(toks: Seq<TokenView>, pos: int)
    ensures
        sound(g_while_tail(toks, pos)),
    decreases remaining(toks, pos), 24int,
{
    let cond = g_padded(toks, pos);
    lemma_padded_yields(toks, pos);
    match cond.out {
        None => {},
        Some((c, n1)) => {
            if is_kind(toks, pos + n1, TokenKind::Loop) {
                lemma_padded_yields(toks, pos + n1 + 1);
                match g_padded(toks, pos + n1 + 1).out {
                    None => {},
                    Some((b, _)) => {
                        lemma_while_node(c, b);
                    },
                }
            }
        },
    }
}

/// What a branch of a `case` yields.
proof fn lemma_case_branch_yields(toks: Seq<TokenView>, pos: int)
    ensures
        g_case_branch(toks, pos).out matches Some((b, _)) ==> readable(b.expr),
    decreases remaining(toks, pos), 1int,
{
    if is_kind(toks, pos + 3, TokenKind::DoubleArrow) {
        lemma_expr_yields(toks, pos + 4);
    }
}

/// What a `case` yields.
proof fn lemma_case_tail_yields(toks: Seq<TokenView>, pos: int)
    ensures
        sound(g_case_tail(toks, pos)),
    decreases remaining(toks, pos), 24int,
{
    let subject = g_padded(toks, pos);
    lemma_padded_yields(toks, pos);
    match subject.out {
        None => {},
        Some((s, n1)) => {
            let p1 = pos + n1;
            if is_kind(toks, p1, TokenKind::Of) {
                let first = g_case_branch(toks, p1 + 1);
                lemma_case_branch_yields(toks, p1 + 1);
                match first.out {
                    None => {},
                    Some((b, n2)) => {
                        let far2 = merge(subject.far, first.far);
                        lemma_case_rest_yields(toks, p1 + 1 + n2, seq![b], far2);
                        lemma_case_node(s, g_case_rest(toks, p1 + 1 + n2, seq![b], far2).value);
                    },
                }
            }
        },
    }
}

/// What the branches behind the first yield.
proof fn lemma_case_rest_yields(
    toks: Seq<TokenView>,
    pos: int,
    acc: Seq<CaseBranchView>,
    far: Far,
)
    requires
        acc.len() >= 1,
        branches_readable(acc),
    ensures
        branches_readable(g_case_rest(toks, pos, acc, far).value),
        g_case_rest(toks, pos, acc, far).value.len() >= 1,
    decreases remaining(toks, pos), 0int,
{
    if is_kind(toks, pos, TokenKind::Semicolon) {
        let next = g_case_branch(toks, pos + 1);
        lemma_case_branch_yields(toks, pos + 1);
        match next.out {
            None => {},
            Some((b, n)) => {
                lemma_case_rest_yields(toks, pos + 1 + n, acc.push(b), merge(far, next.far));
            },
        }
    }
}

/// What a block yields.
proof fn lemma_block_tail_yields(toks: Seq<TokenView>, pos: int)
    ensures
        sound(g_block_tail(toks, pos)),
    decreases remaining(toks, pos), 24int,
{
    let first = g_padded(toks, pos);
    lemma_padded_yields(toks, pos);
    match first.out {
        None => {},
        Some((e, n)) => {
            lemma_block_rest_yields(toks, pos + n, seq![e], first.far);
            lemma_block_node(g_block_rest(toks, pos + n, seq![e], first.far).value);
        },
    }
}

/// What the expressions of a block behind the first yield.
proof fn lemma_block_rest_yields(toks: Seq<TokenView>, pos: int, acc: Seq<ExprView>, far: Far)
    requires
        acc.len() >= 1,
        all_readable(acc),
    ensures
        all_readable(g_block_rest(toks, pos, acc, far).value),
        g_block_rest(toks, pos, acc, far).value.len() >= 1,
    decreases remaining(toks, pos), 0int,
{
    if is_kind(toks, pos, TokenKind::Dot) || is_kind(toks, pos, TokenKind::Semicolon) {
        let next = g_padded(toks, pos + 1);
        lemma_padded_yields(toks, pos + 1);
        match next.out {
            None => {},
            Some((e, n)) => {
                lemma_block_rest_yields(toks, pos + 1 + n, acc.push(e), merge(far, next.far));
            },
        }
    }
}

/// All of `items` are features that the grammar can yield.
pub open spec fn features_readable(items: Seq<FeatureView>) -> bool {
    forall|i: int| 0 <= i < items.len() ==> readable_feature(#[trigger] items[i])
}

/// What a method yields.
proof fn lemma_method_yields(toks: Seq<TokenView>, pos: int)
    ensures
        g_method(toks, pos).out matches Some((m, _)) ==> readable(m.body),
{
    reveal(g_method);
    let p = pos + comments(toks, pos);
    let q = p + 2 + g_formals(toks, p + 2).used;
    let r = q + 3 + comments(toks, q + 3);
    lemma_expr_yields(toks, r + 1);
}

/// What a feature yields.
proof fn lemma_feature_yields(toks: Seq<TokenView>, pos: int)
    ensures
        g_feature(toks, pos).out matches Some((f, _)) ==> readable_feature(f),
{
    reveal(g_feature);
    lemma_method_yields(toks, pos);
    lemma_declaration_yields(toks, pos);
}

/// What the features of a class yield.
proof fn lemma_features_yield(toks: Seq<TokenView>, pos: int, acc: Seq<FeatureView>, far: Far)
    requires
        features_readable(acc),
    ensures
        features_readable(g_features(toks, pos, acc, far).value),
    decreases remaining(toks, pos),
{
    let next = g_feature(toks, pos);
    lemma_feature_yields(toks, pos);
    match next.out {
        None => {},
        Some((f, n)) => {
            if is_kind(toks, pos + n, TokenKind::Semicolon) {
                lemma_features_yield(toks, pos + n + 1, acc.push(f), merge(far, next.far));
            }
        },
    }
}

/// What a class yields.
proof fn lemma_class_yields(toks: Seq<TokenView>, pos: int)
    ensures
        g_class_tail(toks, pos).out matches Some((c, _)) ==> readable_class(c),
{
    reveal(g_class_tail);
    let parent = g_parent(toks, pos + 1);
    let p = pos + 1 + parent.used;
    lemma_features_yield(toks, p + 1, Seq::empty(), parent.far);
}

/// All of `items` are classes that the grammar can yield.
pub open spec fn classes_readable(items: Seq<ClassView>) -> bool {
    forall|i: int| 0 <= i < items.len() ==> readable_class(#[trigger] items[i])
}

/// What the classes of a program yield.
proof fn lemma_classes_yield(toks: Seq<TokenView>, pos: int, acc: Seq<ClassView>, far: Far)
    requires
        classes_readable(acc),
    ensures
        classes_readable(g_classes(toks, pos, acc, far).value),
    decreases remaining(toks, pos),
{
    let p = pos + comments(toks, pos);
    if is_kind(toks, p, TokenKind::Class) {
        let class = g_class_tail(toks, p + 1);
        lemma_class_yields(toks, p + 1);
        match class.out {
            None => {},
            Some((cl, n)) => {
                lemma_classes_yield(toks, p + 1 + n, acc.push(cl), merge(far, class.far));
            },
        }
    }
}

/// Every expression that comes out of a parse is one that the grammar
/// can yield.
pub proof fn lemma_expression_is_readable(toks: Seq<TokenView>)
    ensures
        g_expression(toks) matches Ok(e) ==> readable(e),
{
    lemma_padded_yields(toks, 0);
}

/// Every program that comes out of a parse is one that the grammar can
/// yield.
pub proof fn lemma_program_is_readable(toks: Seq<TokenView>)
    ensures
        g_program(toks) matches Ok(p) ==> readable_program(p),
{
    lemma_classes_yield(toks, 0, Seq::empty(), far_none());
}

/// Parsing, writing and parsing again yields the expression of the first
/// parse.
pub proof fn lemma_parsed_expression_reads_back(toks: Seq<TokenView>)
    ensures
        g_expression(toks) matches Ok(e) ==> g_expression(written(e)) == Ok::<ExprView, Far>(e),
{
    lemma_expression_is_readable(toks);
    match g_expression(toks) {
        Ok(e) => {
            lemma_expression_reads_back(e);
        },
        Err(_) => {},
    }
}

/// Parsing, writing and parsing again yields the program of the first
/// parse: its classes in their order, the features of each class in their
/// order, and the formals of each method in their order.
pub proof fn lemma_parsed_program_reads_back(toks: Seq<TokenView>)
    ensures
        g_program(toks) matches Ok(p) ==> g_program(written_program(p)) == Ok::<ProgramView, Far>(
            p,
        ),
{
    lemma_program_is_readable(toks);
    match g_program(toks) {
        Ok(p) => {
            lemma_program_reads_back(p);
        },
        Err(_) => {},
    }
}

} // verus!
