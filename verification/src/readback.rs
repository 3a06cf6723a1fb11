//! Parsing what was written yields what was written: the proof, by
//! induction on the tree.

use vstd::prelude::*;
use crate::ast::{CaseBranchView, ExprView, LetBindingView};
use crate::grammar::{as_binding, binary_node, g_expression, is_kind, text_of, Far};
use crate::reading::{
    are_more_args, are_more_bindings, are_more_branches, are_more_items, holds, is_atom, is_branch,
    is_call_tail, is_declaration, is_expr, is_operand, is_padded, lemma_assign_atom,
    lemma_atom_is_expr, lemma_atom_is_operand, lemma_binary_operand, lemma_block_atom, lemma_branch,
    lemma_call_atom, lemma_call_tail, lemma_case_atom, lemma_declaration_with_value,
    lemma_dynamic_dispatch, lemma_expr_is_padded, lemma_first_arg, lemma_holds_at,
    lemma_holds_named, lemma_holds_paren, lemma_holds_sign, lemma_holds_token, lemma_id_atom,
    lemma_if_atom, lemma_is_void_atom, lemma_kind_starts, lemma_kind_stops, lemma_last_arg,
    lemma_last_binding, lemma_last_branch, lemma_last_item, lemma_let_atom, lemma_literal_atom,
    lemma_new_atom, lemma_next_arg, lemma_next_binding, lemma_next_branch, lemma_next_item,
    lemma_no_args, lemma_no_expr_at_paren, lemma_not_operand, lemma_operand_is_expr,
    lemma_operand_rises, lemma_paren_atom, lemma_plain_declaration, lemma_static_dispatch,
    lemma_while_atom, stops,
};
use crate::token::{numbered, plain, worded, TokenKind, TokenView};
use crate::written::{
    named, readable, sign, written, written_bare, written_bindings, written_branches,
    written_call_tail, written_declaration, written_link, written_list, written_more,
    written_typed_name,
};

verus! {

/// Wherever the expression `e`, written within parentheses, stands in
/// `toks`, it is an atom that yields `e`.
pub open spec fn reads(toks: Seq<TokenView>, e: ExprView) -> bool {
    forall|p: int| #[trigger] holds(toks, p, written(e)) ==> is_atom(toks, p, e, written(e).len())
}

/// `reads` holds of all of `items`.
pub open spec fn reads_all(toks: Seq<TokenView>, items: Seq<ExprView>) -> bool {
    forall|i: int| 0 <= i < items.len() ==> reads(toks, #[trigger] items[i])
}

/// An expression that was written within parentheses, and that is read as
/// an atom wherever it stands, is read as an operand of any level that the
/// token behind it does not go on.
pub proof fn lemma_use_operand(toks: Seq<TokenView>, pos: int, e: ExprView, level: nat)
    requires
        reads(toks, e),
        holds(toks, pos, written(e)),
        level <= 3,
        stops(toks, pos + written(e).len(), level),
    ensures
        is_operand(toks, pos, level, e, written(e).len()),
        !is_kind(toks, pos, TokenKind::Comment),
{
    lemma_holds_paren(toks, pos, e);
    lemma_atom_is_operand(toks, pos, level, e, written(e).len());
}

/// An expression that was written within parentheses, and that is read as
/// an atom wherever it stands, is read as an expression, also where
/// comments may stand around it, if nothing follows that goes on an
/// expression.
pub proof fn lemma_use_expr(toks: Seq<TokenView>, pos: int, e: ExprView)
    requires
        reads(toks, e),
        holds(toks, pos, written(e)),
        stops(toks, pos + written(e).len(), 3),
    ensures
        is_expr(toks, pos, e, written(e).len()),
        is_padded(toks, pos, e, written(e).len()),
{
    lemma_use_operand(toks, pos, e, 3);
    lemma_operand_is_expr(toks, pos, e, written(e).len());
    lemma_expr_is_padded(toks, pos, e, written(e).len());
}

/// A literal that was written, and that a closing parenthesis follows, is
/// read as the literal.
proof fn lemma_reads_literal(toks: Seq<TokenView>, pos: int, e: ExprView, token: TokenView)
    requires
        holds(toks, pos, seq![token]),
        is_kind(toks, pos + 1, TokenKind::RightParen),
        e == ExprView::Integer(token.number) && token.kind == TokenKind::Integer || e
            == ExprView::String(token.text) && token.kind == TokenKind::String || e
            == ExprView::True && token.kind == TokenKind::True || e == ExprView::False
            && token.kind == TokenKind::False,
    ensures
        is_expr(toks, pos, e, 1),
{
    lemma_holds_token(toks, pos, token);
    lemma_literal_atom(toks, pos);
    lemma_kind_starts(toks, pos, token.kind);
    lemma_kind_stops(toks, pos + 1, TokenKind::RightParen);
    lemma_atom_is_expr(toks, pos, e, 1);
}

/// An identifier that was written, and that a closing parenthesis follows,
/// is read as the identifier.
proof fn lemma_reads_id(toks: Seq<TokenView>, pos: int, name: Seq<char>)
    requires
        holds(toks, pos, named(TokenKind::ObjectIdentifier, name)),
        is_kind(toks, pos + 1, TokenKind::RightParen),
    ensures
        is_expr(toks, pos, ExprView::Id(name), 1),
{
    lemma_holds_named(toks, pos, TokenKind::ObjectIdentifier, name);
    lemma_id_atom(toks, pos);
    lemma_kind_starts(toks, pos, TokenKind::ObjectIdentifier);
    lemma_kind_stops(toks, pos + 1, TokenKind::RightParen);
    lemma_atom_is_expr(toks, pos, ExprView::Id(name), 1);
}

/// A `new` that was written, and that a closing parenthesis follows, is
/// read as the `new`.
proof fn lemma_reads_new(toks: Seq<TokenView>, pos: int, t: Seq<char>)
    requires
        holds(toks, pos, sign(TokenKind::New) + named(TokenKind::TypeIdentifier, t)),
        is_kind(toks, pos + 2, TokenKind::RightParen),
    ensures
        is_expr(toks, pos, ExprView::New(t), 2),
{
    lemma_holds_at(toks, pos, sign(TokenKind::New), named(TokenKind::TypeIdentifier, t), pos + 1);
    lemma_holds_sign(toks, pos, TokenKind::New);
    lemma_holds_named(toks, pos + 1, TokenKind::TypeIdentifier, t);
    lemma_new_atom(toks, pos);
    lemma_kind_starts(toks, pos, TokenKind::New);
    lemma_kind_stops(toks, pos + 2, TokenKind::RightParen);
    lemma_atom_is_expr(toks, pos, ExprView::New(t), 2);
}

/// An `isvoid` that was written, and that a closing parenthesis follows,
/// is read as the `isvoid`, where its operand is read back.
proof fn lemma_reads_is_void(toks: Seq<TokenView>, pos: int, a: ExprView)
    requires
        reads(toks, a),
        holds(toks, pos, sign(TokenKind::Isvoid) + written(a)),
        is_kind(toks, pos + 1 + written(a).len(), TokenKind::RightParen),
    ensures
        is_expr(toks, pos, ExprView::IsVoid(Box::new(a)), (1 + written(a).len()) as nat),
{
    let end = pos + 1 + written(a).len();
    lemma_holds_at(toks, pos, sign(TokenKind::Isvoid), written(a), pos + 1);
    lemma_holds_sign(toks, pos, TokenKind::Isvoid);
    lemma_kind_stops(toks, end, TokenKind::RightParen);
    lemma_use_expr(toks, pos + 1, a);
    lemma_is_void_atom(toks, pos, a, written(a).len());
    lemma_kind_starts(toks, pos, TokenKind::Isvoid);
    lemma_atom_is_expr(toks, pos, ExprView::IsVoid(Box::new(a)), (1 + written(a).len()) as nat);
}

/// A negation that was written, and that a closing parenthesis follows, is
/// read as the negation, where its operand is read back.
proof fn lemma_reads_not(toks: Seq<TokenView>, pos: int, a: ExprView)
    requires
        reads(toks, a),
        holds(toks, pos, sign(TokenKind::Not) + written(a)),
        is_kind(toks, pos + 1 + written(a).len(), TokenKind::RightParen),
    ensures
        is_expr(toks, pos, ExprView::Not(Box::new(a)), (1 + written(a).len()) as nat),
{
    let e = ExprView::Not(Box::new(a));
    let n = (1 + written(a).len()) as nat;
    let end = pos + 1 + written(a).len();
    lemma_holds_at(toks, pos, sign(TokenKind::Not), written(a), pos + 1);
    lemma_holds_sign(toks, pos, TokenKind::Not);
    lemma_kind_stops(toks, end, TokenKind::RightParen);
    lemma_use_operand(toks, pos + 1, a, 0);
    lemma_not_operand(toks, pos, a, written(a).len());
    lemma_operand_rises(toks, pos, 1, e, n);
    lemma_operand_rises(toks, pos, 2, e, n);
    lemma_operand_rises(toks, pos, 3, e, n);
    lemma_operand_is_expr(toks, pos, e, n);
}

/// An assignment that was written, and that a closing parenthesis follows,
/// is read as the assignment, where its value is read back.
proof fn lemma_reads_assign(toks: Seq<TokenView>, pos: int, name: Seq<char>, a: ExprView)
    requires
        reads(toks, a),
        holds(
            toks,
            pos,
            named(TokenKind::ObjectIdentifier, name) + sign(TokenKind::Assign) + written(a),
        ),
        is_kind(toks, pos + 2 + written(a).len(), TokenKind::RightParen),
    ensures
        is_expr(
            toks,
            pos,
            ExprView::Assign { name, expr: Box::new(a) },
            (2 + written(a).len()) as nat,
        ),
{
    let e = ExprView::Assign { name, expr: Box::new(a) };
    let end = pos + 2 + written(a).len();
    lemma_holds_at(
        toks,
        pos,
        named(TokenKind::ObjectIdentifier, name) + sign(TokenKind::Assign),
        written(a),
        pos + 2,
    );
    lemma_holds_at(
        toks,
        pos,
        named(TokenKind::ObjectIdentifier, name),
        sign(TokenKind::Assign),
        pos + 1,
    );
    lemma_holds_named(toks, pos, TokenKind::ObjectIdentifier, name);
    lemma_holds_sign(toks, pos + 1, TokenKind::Assign);
    lemma_kind_stops(toks, end, TokenKind::RightParen);
    lemma_use_expr(toks, pos + 2, a);
    lemma_assign_atom(toks, pos, a, written(a).len());
    lemma_kind_starts(toks, pos, TokenKind::ObjectIdentifier);
    lemma_atom_is_expr(toks, pos, e, (2 + written(a).len()) as nat);
}

/// The level of an operator.
pub open spec fn level_of(op: TokenKind) -> nat {
    if op == TokenKind::Multiply || op == TokenKind::Divide {
        1
    } else if op == TokenKind::Plus || op == TokenKind::Minus {
        2
    } else {
        3
    }
}

/// `op` is an operator that joins two operands.
pub open spec fn joins(op: TokenKind) -> bool {
    op == TokenKind::Multiply || op == TokenKind::Divide || op == TokenKind::Plus || op
        == TokenKind::Minus || op == TokenKind::LessThan || op == TokenKind::LessThanOrEqual || op
        == TokenKind::Equal
}

/// Two operands that were written with an operator between them, and that
/// a closing parenthesis follows, are read as the node of the operator,
/// where both are read back.
proof fn lemma_reads_binary(toks: Seq<TokenView>, pos: int, a: ExprView, b: ExprView, op: TokenKind)
    requires
        reads(toks, a),
        reads(toks, b),
        joins(op),
        holds(toks, pos, written(a) + sign(op) + written(b)),
        is_kind(toks, pos + written(a).len() + 1 + written(b).len(), TokenKind::RightParen),
    ensures
        is_expr(
            toks,
            pos,
            binary_node(op, a, b),
            (written(a).len() + 1 + written(b).len()) as nat,
        ),
{
    let level = level_of(op);
    let p1 = pos + written(a).len();
    let p2 = p1 + 1;
    let end = p2 + written(b).len();
    lemma_holds_at(toks, pos, written(a) + sign(op), written(b), p2);
    lemma_holds_at(toks, pos, written(a), sign(op), p1);
    lemma_holds_sign(toks, p1, op);
    lemma_kind_stops(toks, end, TokenKind::RightParen);
    let below = (level - 1) as nat;
    assert(stops(toks, p1, below));
    lemma_use_operand(toks, pos, a, below);
    lemma_use_operand(toks, p2, b, below);
    lemma_binary_operand(toks, pos, level, a, written(a).len(), b, written(b).len());
    let e = binary_node(op, a, b);
    let n = (written(a).len() + 1 + written(b).len()) as nat;
    if level < 3 {
        lemma_operand_rises(toks, pos, level + 1, e, n);
        if level < 2 {
            lemma_operand_rises(toks, pos, 3, e, n);
        }
    }
    lemma_operand_is_expr(toks, pos, e, n);
}

/// An `if` that was written, and that a closing parenthesis follows, is
/// read as the `if`, where its three expressions are read back.
proof fn lemma_reads_if(toks: Seq<TokenView>, pos: int, c: ExprView, t: ExprView, f: ExprView)
    requires
        reads(toks, c),
        reads(toks, t),
        reads(toks, f),
        holds(
            toks,
            pos,
            sign(TokenKind::If) + written(c) + sign(TokenKind::Then) + written(t) + sign(
                TokenKind::Else,
            ) + written(f) + sign(TokenKind::Fi),
        ),
        is_kind(
            toks,
            pos + 1 + written(c).len() + 1 + written(t).len() + 1 + written(f).len() + 1,
            TokenKind::RightParen,
        ),
    ensures
        is_expr(
            toks,
            pos,
            ExprView::If { cond: Box::new(c), then_branch: Box::new(t), else_branch: Box::new(f) },
            (1 + written(c).len() + 1 + written(t).len() + 1 + written(f).len() + 1) as nat,
        ),
{
    let e = ExprView::If { cond: Box::new(c), then_branch: Box::new(t), else_branch: Box::new(f) };
    let p0 = pos + 1;
    let p1 = p0 + written(c).len();
    let p2 = p1 + 1 + written(t).len();
    let p3 = p2 + 1 + written(f).len();
    lemma_holds_at(
        toks,
        pos,
        sign(TokenKind::If) + written(c) + sign(TokenKind::Then) + written(t)
            + sign(TokenKind::Else) + written(f),
        sign(TokenKind::Fi),
        p3,
    );
    lemma_holds_at(
        toks,
        pos,
        sign(TokenKind::If) + written(c) + sign(TokenKind::Then) + written(t)
            + sign(TokenKind::Else),
        written(f),
        p2 + 1,
    );
    lemma_holds_at(
        toks,
        pos,
        sign(TokenKind::If) + written(c) + sign(TokenKind::Then) + written(t),
        sign(TokenKind::Else),
        p2,
    );
    lemma_holds_at(
        toks,
        pos,
        sign(TokenKind::If) + written(c) + sign(TokenKind::Then),
        written(t),
        p1 + 1,
    );
    lemma_holds_at(toks, pos, sign(TokenKind::If) + written(c), sign(TokenKind::Then), p1);
    lemma_holds_at(toks, pos, sign(TokenKind::If), written(c), p0);
    lemma_holds_sign(toks, pos, TokenKind::If);
    lemma_holds_sign(toks, p1, TokenKind::Then);
    lemma_holds_sign(toks, p2, TokenKind::Else);
    lemma_holds_sign(toks, p3, TokenKind::Fi);
    lemma_kind_stops(toks, p1, TokenKind::Then);
    lemma_kind_stops(toks, p2, TokenKind::Else);
    lemma_kind_stops(toks, p3, TokenKind::Fi);
    lemma_use_expr(toks, p0, c);
    lemma_use_expr(toks, p1 + 1, t);
    lemma_use_expr(toks, p2 + 1, f);
    lemma_if_atom(toks, pos, c, written(c).len(), t, written(t).len(), f, written(f).len());
    lemma_kind_starts(toks, pos, TokenKind::If);
    lemma_kind_stops(toks, p3 + 1, TokenKind::RightParen);
    lemma_atom_is_expr(
        toks,
        pos,
        e,
        (1 + written(c).len() + 1 + written(t).len() + 1 + written(f).len() + 1) as nat,
    );
}

/// A `while` that was written, and that a closing parenthesis follows, is
/// read as the `while`, where its two expressions are read back.
proof fn lemma_reads_while(toks: Seq<TokenView>, pos: int, c: ExprView, b: ExprView)
    requires
        reads(toks, c),
        reads(toks, b),
        holds(
            toks,
            pos,
            sign(TokenKind::While) + written(c) + sign(TokenKind::Loop) + written(b) + sign(
                TokenKind::Pool,
            ),
        ),
        is_kind(
            toks,
            pos + 1 + written(c).len() + 1 + written(b).len() + 1,
            TokenKind::RightParen,
        ),
    ensures
        is_expr(
            toks,
            pos,
            ExprView::While { cond: Box::new(c), body: Box::new(b) },
            (1 + written(c).len() + 1 + written(b).len() + 1) as nat,
        ),
{
    let e = ExprView::While { cond: Box::new(c), body: Box::new(b) };
    let p0 = pos + 1;
    let p1 = p0 + written(c).len();
    let p2 = p1 + 1 + written(b).len();
    lemma_holds_at(
        toks,
        pos,
        sign(TokenKind::While) + written(c) + sign(TokenKind::Loop) + written(b),
        sign(TokenKind::Pool),
        p2,
    );
    lemma_holds_at(
        toks,
        pos,
        sign(TokenKind::While) + written(c) + sign(TokenKind::Loop),
        written(b),
        p1 + 1,
    );
    lemma_holds_at(toks, pos, sign(TokenKind::While) + written(c), sign(TokenKind::Loop), p1);
    lemma_holds_at(toks, pos, sign(TokenKind::While), written(c), p0);
    lemma_holds_sign(toks, pos, TokenKind::While);
    lemma_holds_sign(toks, p1, TokenKind::Loop);
    lemma_holds_sign(toks, p2, TokenKind::Pool);
    lemma_kind_stops(toks, p1, TokenKind::Loop);
    lemma_kind_stops(toks, p2, TokenKind::Pool);
    lemma_use_expr(toks, p0, c);
    lemma_use_expr(toks, p1 + 1, b);
    lemma_while_atom(toks, pos, c, written(c).len(), b, written(b).len());
    lemma_kind_starts(toks, pos, TokenKind::While);
    lemma_kind_stops(toks, p2 + 1, TokenKind::RightParen);
    lemma_atom_is_expr(
        toks,
        pos,
        e,
        (1 + written(c).len() + 1 + written(b).len() + 1) as nat,
    );
}

/// What follows an item of a written list goes on no expression: it is
/// the separator before the next item, or the token that closes the list.
proof fn lemma_follow_of_item(
    toks: Seq<TokenView>,
    pos: int,
    items: Seq<ExprView>,
    from: int,
    separator: TokenKind,
    closer: TokenKind,
)
    requires
        0 <= from <= items.len(),
        holds(toks, pos, written_more(items, from, separator)),
        is_kind(toks, pos + written_more(items, from, separator).len(), closer),
        separator == TokenKind::Comma || separator == TokenKind::Semicolon,
        closer == TokenKind::RightParen || closer == TokenKind::RightBrace,
    ensures
        stops(toks, pos, 3),
        from < items.len() ==> is_kind(toks, pos, separator),
        from == items.len() ==> is_kind(toks, pos, closer),
{
    if from < items.len() {
        let more = written_more(items, from + 1, separator);
        lemma_holds_at(
            toks,
            pos,
            sign(separator) + written(items[from]),
            more,
            pos + 1 + written(items[from]).len(),
        );
        lemma_holds_at(toks, pos, sign(separator), written(items[from]), pos + 1);
        lemma_holds_sign(toks, pos, separator);
        lemma_kind_stops(toks, pos, separator);
    } else {
        lemma_kind_stops(toks, pos, closer);
    }
}

/// Parsing the arguments that were written from index `from` on yields
/// them, added to those before them.
proof fn lemma_reads_more_args(toks: Seq<TokenView>, pos: int, items: Seq<ExprView>, from: int)
    requires
        reads_all(toks, items),
        1 <= from <= items.len(),
        holds(toks, pos, written_more(items, from, TokenKind::Comma)),
        is_kind(
            toks,
            pos + written_more(items, from, TokenKind::Comma).len(),
            TokenKind::RightParen,
        ),
    ensures
        are_more_args(
            toks,
            pos,
            items.take(from),
            items,
            written_more(items, from, TokenKind::Comma).len(),
        ),
    decreases items.len() - from,
{
    if from < items.len() {
        let item = items[from];
        let more = written_more(items, from + 1, TokenKind::Comma);
        let p = pos + 1 + written(item).len();
        lemma_holds_at(toks, pos, sign(TokenKind::Comma) + written(item), more, p);
        lemma_holds_at(toks, pos, sign(TokenKind::Comma), written(item), pos + 1);
        lemma_holds_sign(toks, pos, TokenKind::Comma);
        lemma_follow_of_item(toks, p, items, from + 1, TokenKind::Comma, TokenKind::RightParen);
        lemma_use_expr(toks, pos + 1, item);
        assert(items.take(from).push(item) =~= items.take(from + 1));
        lemma_reads_more_args(toks, p, items, from + 1);
        lemma_next_arg(toks, pos, items.take(from), item, written(item).len(), items, more.len());
    } else {
        assert(items.take(from) =~= items);
        lemma_last_arg(toks, pos, items);
    }
}

/// Parsing the arguments of a call that were written between parentheses
/// yields them.
proof fn lemma_reads_call_tail(toks: Seq<TokenView>, pos: int, args: Seq<ExprView>)
    requires
        reads_all(toks, args),
        holds(toks, pos, written_call_tail(args)),
    ensures
        is_call_tail(toks, pos, args, written_call_tail(args).len()),
        is_kind(toks, pos, TokenKind::LeftParen),
{
    let list = written_list(args, TokenKind::Comma);
    let end = pos + 1 + list.len();
    lemma_holds_at(toks, pos, sign(TokenKind::LeftParen) + list, sign(TokenKind::RightParen), end);
    lemma_holds_at(toks, pos, sign(TokenKind::LeftParen), list, pos + 1);
    lemma_holds_sign(toks, pos, TokenKind::LeftParen);
    lemma_holds_sign(toks, end, TokenKind::RightParen);
    if args.len() == 0 {
        lemma_no_expr_at_paren(toks, pos + 1);
        lemma_no_args(toks, pos + 1);
        assert(args =~= Seq::<ExprView>::empty());
    } else {
        let item = args[0];
        let more = written_more(args, 1, TokenKind::Comma);
        let p = pos + 1 + written(item).len();
        lemma_holds_at(toks, pos + 1, written(item), more, p);
        lemma_follow_of_item(toks, p, args, 1, TokenKind::Comma, TokenKind::RightParen);
        lemma_use_expr(toks, pos + 1, item);
        assert(seq![item] =~= args.take(1));
        lemma_reads_more_args(toks, p, args, 1);
        lemma_first_arg(toks, pos + 1, item, written(item).len(), args, more.len());
    }
    lemma_call_tail(toks, pos, args, list.len());
}

/// A call that was written, and that a closing parenthesis follows, is
/// read as the call, where its arguments are read back.
proof fn lemma_reads_call(toks: Seq<TokenView>, pos: int, name: Seq<char>, args: Seq<ExprView>)
    requires
        reads_all(toks, args),
        holds(toks, pos, named(TokenKind::ObjectIdentifier, name) + written_call_tail(args)),
        is_kind(toks, pos + 1 + written_call_tail(args).len(), TokenKind::RightParen),
    ensures
        is_expr(
            toks,
            pos,
            ExprView::FuncCall { name, args },
            (1 + written_call_tail(args).len()) as nat,
        ),
{
    let e = ExprView::FuncCall { name, args };
    let tail = written_call_tail(args);
    lemma_holds_at(toks, pos, named(TokenKind::ObjectIdentifier, name), tail, pos + 1);
    lemma_holds_named(toks, pos, TokenKind::ObjectIdentifier, name);
    lemma_reads_call_tail(toks, pos + 1, args);
    lemma_call_atom(toks, pos, args, tail.len());
    lemma_kind_starts(toks, pos, TokenKind::ObjectIdentifier);
    lemma_kind_stops(toks, pos + 1 + tail.len(), TokenKind::RightParen);
    lemma_atom_is_expr(toks, pos, e, (1 + tail.len()) as nat);
}

/// A dispatch that was written, and that a closing parenthesis follows, is
/// read as the dispatch, where its receiver and arguments are read back.
proof fn lemma_reads_dispatch(
    toks: Seq<TokenView>,
    pos: int,
    recv: ExprView,
    static_type: Option<Seq<char>>,
    method: Seq<char>,
    args: Seq<ExprView>,
)
    requires
        reads(toks, recv),
        reads_all(toks, args),
        holds(
            toks,
            pos,
            written(recv) + written_link(static_type) + (named(
                TokenKind::ObjectIdentifier,
                method,
            ) + written_call_tail(args)),
        ),
        is_kind(
            toks,
            pos + written(recv).len() + written_link(static_type).len() + 1 + written_call_tail(
                args,
            ).len(),
            TokenKind::RightParen,
        ),
    ensures
        is_expr(
            toks,
            pos,
            ExprView::Dispatch { expr: Box::new(recv), static_type, method, args },
            (written(recv).len() + written_link(static_type).len() + 1 + written_call_tail(
                args,
            ).len()) as nat,
        ),
{
    let tail = written_call_tail(args);
    let call = named(TokenKind::ObjectIdentifier, method) + tail;
    let link = written_link(static_type);
    let n = written(recv).len();
    let p1 = pos + n;
    let p2 = p1 + link.len();
    lemma_holds_at(toks, pos, written(recv) + link, call, p2);
    lemma_holds_at(toks, pos, written(recv), link, p1);
    lemma_holds_at(toks, p2, named(TokenKind::ObjectIdentifier, method), tail, p2 + 1);
    lemma_holds_named(toks, p2, TokenKind::ObjectIdentifier, method);
    lemma_reads_call_tail(toks, p2 + 1, args);
    lemma_holds_paren(toks, pos, recv);
    match static_type {
        None => {
            lemma_holds_sign(toks, p1, TokenKind::Dot);
            lemma_dynamic_dispatch(toks, pos, recv, n, args, tail.len());
        },
        Some(t) => {
            lemma_holds_at(
                toks,
                p1,
                sign(TokenKind::TypeId) + named(TokenKind::TypeIdentifier, t),
                sign(TokenKind::Dot),
                p1 + 2,
            );
            lemma_holds_at(
                toks,
                p1,
                sign(TokenKind::TypeId),
                named(TokenKind::TypeIdentifier, t),
                p1 + 1,
            );
            lemma_holds_sign(toks, p1, TokenKind::TypeId);
            lemma_holds_named(toks, p1 + 1, TokenKind::TypeIdentifier, t);
            lemma_holds_sign(toks, p1 + 2, TokenKind::Dot);
            lemma_static_dispatch(toks, pos, recv, n, args, tail.len());
        },
    }
}

/// Parsing the expressions of a block that were written from index `from`
/// on yields them, added to those before them.
proof fn lemma_reads_more_items(toks: Seq<TokenView>, pos: int, items: Seq<ExprView>, from: int)
    requires
        reads_all(toks, items),
        1 <= from <= items.len(),
        holds(toks, pos, written_more(items, from, TokenKind::Semicolon)),
        is_kind(
            toks,
            pos + written_more(items, from, TokenKind::Semicolon).len(),
            TokenKind::RightBrace,
        ),
    ensures
        are_more_items(
            toks,
            pos,
            items.take(from),
            items,
            written_more(items, from, TokenKind::Semicolon).len(),
        ),
    decreases items.len() - from,
{
    if from < items.len() {
        let item = items[from];
        let more = written_more(items, from + 1, TokenKind::Semicolon);
        let p = pos + 1 + written(item).len();
        lemma_holds_at(toks, pos, sign(TokenKind::Semicolon) + written(item), more, p);
        lemma_holds_at(toks, pos, sign(TokenKind::Semicolon), written(item), pos + 1);
        lemma_holds_sign(toks, pos, TokenKind::Semicolon);
        lemma_follow_of_item(
            toks,
            p,
            items,
            from + 1,
            TokenKind::Semicolon,
            TokenKind::RightBrace,
        );
        lemma_use_expr(toks, pos + 1, item);
        assert(items.take(from).push(item) =~= items.take(from + 1));
        lemma_reads_more_items(toks, p, items, from + 1);
        lemma_next_item(toks, pos, items.take(from), item, written(item).len(), items, more.len());
    } else {
        assert(items.take(from) =~= items);
        lemma_last_item(toks, pos, items);
    }
}

/// A block that was written, and that a closing parenthesis follows, is
/// read as the block, where its expressions are read back.
proof fn lemma_reads_block(toks: Seq<TokenView>, pos: int, items: Seq<ExprView>)
    requires
        items.len() >= 1,
        reads_all(toks, items),
        holds(
            toks,
            pos,
            sign(TokenKind::LeftBrace) + written_list(items, TokenKind::Semicolon) + sign(
                TokenKind::RightBrace,
            ),
        ),
        is_kind(
            toks,
            pos + 1 + written_list(items, TokenKind::Semicolon).len() + 1,
            TokenKind::RightParen,
        ),
    ensures
        is_expr(
            toks,
            pos,
            ExprView::Block(items),
            (1 + written_list(items, TokenKind::Semicolon).len() + 1) as nat,
        ),
{
    let e = ExprView::Block(items);
    let list = written_list(items, TokenKind::Semicolon);
    let end = pos + 1 + list.len();
    lemma_holds_at(toks, pos, sign(TokenKind::LeftBrace) + list, sign(TokenKind::RightBrace), end);
    lemma_holds_at(toks, pos, sign(TokenKind::LeftBrace), list, pos + 1);
    lemma_holds_sign(toks, pos, TokenKind::LeftBrace);
    lemma_holds_sign(toks, end, TokenKind::RightBrace);
    let item = items[0];
    let more = written_more(items, 1, TokenKind::Semicolon);
    let p = pos + 1 + written(item).len();
    lemma_holds_at(toks, pos + 1, written(item), more, p);
    lemma_follow_of_item(toks, p, items, 1, TokenKind::Semicolon, TokenKind::RightBrace);
    lemma_use_expr(toks, pos + 1, item);
    assert(seq![item] =~= items.take(1));
    lemma_reads_more_items(toks, p, items, 1);
    lemma_block_atom(toks, pos, item, written(item).len(), items, more.len());
    lemma_kind_starts(toks, pos, TokenKind::LeftBrace);
    lemma_kind_stops(toks, end + 1, TokenKind::RightParen);
    lemma_atom_is_expr(toks, pos, e, (list.len() + 2) as nat);
}

/// The initial values of all of `items` are read back.
pub open spec fn reads_values(toks: Seq<TokenView>, items: Seq<LetBindingView>) -> bool {
    forall|i: int|
        0 <= i < items.len() ==> ((#[trigger] items[i]).init matches Some(e) ==> reads(toks, e))
}

/// The expressions of all of `items` are read back.
pub open spec fn reads_branches(toks: Seq<TokenView>, items: Seq<CaseBranchView>) -> bool {
    forall|i: int| 0 <= i < items.len() ==> reads(toks, (#[trigger] items[i]).expr)
}

/// Parsing a declaration that was written, and that neither an arrow nor
/// anything that goes on an expression follows, yields the declaration.
pub proof fn lemma_reads_declaration(
    toks: Seq<TokenView>,
    pos: int,
    name: Seq<char>,
    typ: Seq<char>,
    init: Option<ExprView>,
)
    requires
        init matches Some(e) ==> reads(toks, e),
        holds(toks, pos, written_declaration(name, typ, init)),
        stops(toks, pos + written_declaration(name, typ, init).len(), 3),
        !is_kind(toks, pos + written_declaration(name, typ, init).len(), TokenKind::Assign),
    ensures
        is_declaration(
            toks,
            pos,
            (name, typ, init),
            written_declaration(name, typ, init).len(),
        ),
        is_kind(toks, pos, TokenKind::ObjectIdentifier),
        is_kind(toks, pos + 1, TokenKind::Colon),
{
    let head = written_typed_name(name, typ);
    let value = match init {
        None => Seq::<TokenView>::empty(),
        Some(e) => sign(TokenKind::Assign) + written(e),
    };
    lemma_holds_at(toks, pos, head, value, pos + 3);
    lemma_holds_typed_name(toks, pos, name, typ);
    match init {
        None => {
            lemma_plain_declaration(toks, pos);
        },
        Some(e) => {
            lemma_holds_at(toks, pos + 3, sign(TokenKind::Assign), written(e), pos + 4);
            lemma_holds_sign(toks, pos + 3, TokenKind::Assign);
            lemma_use_expr(toks, pos + 4, e);
            lemma_declaration_with_value(toks, pos, e, written(e).len());
        },
    }
}

/// A written name and type stand where they stand as three tokens.
pub proof fn lemma_holds_typed_name(toks: Seq<TokenView>, pos: int, name: Seq<char>, typ: Seq<char>)
    requires
        holds(toks, pos, written_typed_name(name, typ)),
    ensures
        is_kind(toks, pos, TokenKind::ObjectIdentifier),
        text_of(toks, pos) == name,
        is_kind(toks, pos + 1, TokenKind::Colon),
        is_kind(toks, pos + 2, TokenKind::TypeIdentifier),
        text_of(toks, pos + 2) == typ,
{
    let whole = written_typed_name(name, typ);
    assert(whole =~= named(TokenKind::ObjectIdentifier, name) + sign(TokenKind::Colon) + named(
        TokenKind::TypeIdentifier,
        typ,
    ));
    lemma_holds_at(
        toks,
        pos,
        named(TokenKind::ObjectIdentifier, name) + sign(TokenKind::Colon),
        named(TokenKind::TypeIdentifier, typ),
        pos + 2,
    );
    lemma_holds_at(
        toks,
        pos,
        named(TokenKind::ObjectIdentifier, name),
        sign(TokenKind::Colon),
        pos + 1,
    );
    lemma_holds_named(toks, pos, TokenKind::ObjectIdentifier, name);
    lemma_holds_sign(toks, pos + 1, TokenKind::Colon);
    lemma_holds_named(toks, pos + 2, TokenKind::TypeIdentifier, typ);
}

/// What follows a written binding is the comma before the next, or the
/// `in` that ends the bindings.
proof fn lemma_follow_of_binding(
    toks: Seq<TokenView>,
    pos: int,
    items: Seq<LetBindingView>,
    from: int,
)
    requires
        1 <= from <= items.len(),
        holds(toks, pos, written_bindings(items, from)),
        is_kind(toks, pos + written_bindings(items, from).len(), TokenKind::In),
    ensures
        from < items.len() ==> is_kind(toks, pos, TokenKind::Comma),
        from == items.len() ==> is_kind(toks, pos, TokenKind::In),
        stops(toks, pos, 3),
        !is_kind(toks, pos, TokenKind::Assign),
{
    if from < items.len() {
        let one = written_declaration(items[from].name, items[from].typ, items[from].init);
        let more = written_bindings(items, from + 1);
        lemma_holds_at(
            toks,
            pos,
            sign(TokenKind::Comma) + one,
            more,
            pos + 1 + one.len(),
        );
        lemma_holds_at(toks, pos, sign(TokenKind::Comma), one, pos + 1);
        lemma_holds_sign(toks, pos, TokenKind::Comma);
    }
}

/// Parsing the bindings that were written from index `from` on yields
/// them, added to those before them.
proof fn lemma_reads_more_bindings(
    toks: Seq<TokenView>,
    pos: int,
    items: Seq<LetBindingView>,
    from: int,
)
    requires
        reads_values(toks, items),
        1 <= from <= items.len(),
        holds(toks, pos, written_bindings(items, from)),
        is_kind(toks, pos + written_bindings(items, from).len(), TokenKind::In),
    ensures
        are_more_bindings(toks, pos, items.take(from), items, written_bindings(items, from).len()),
    decreases items.len() - from,
{
    if from < items.len() {
        let item = items[from];
        let one = written_declaration(item.name, item.typ, item.init);
        let more = written_bindings(items, from + 1);
        let p = pos + 1 + one.len();
        lemma_holds_at(toks, pos, sign(TokenKind::Comma) + one, more, p);
        lemma_holds_at(toks, pos, sign(TokenKind::Comma), one, pos + 1);
        lemma_holds_sign(toks, pos, TokenKind::Comma);
        lemma_follow_of_binding(toks, p, items, from + 1);
        lemma_reads_declaration(toks, pos + 1, item.name, item.typ, item.init);
        let d = (item.name, item.typ, item.init);
        assert(as_binding(d) == item);
        assert(items.take(from).push(item) =~= items.take(from + 1));
        lemma_reads_more_bindings(toks, p, items, from + 1);
        lemma_next_binding(toks, pos, items.take(from), d, one.len(), items, more.len());
    } else {
        assert(items.take(from) =~= items);
        lemma_kind_is_not(toks, pos, TokenKind::In, TokenKind::Comma);
        lemma_last_binding(toks, pos, items);
    }
}

/// A token of one kind is of no other kind.
pub proof fn lemma_kind_is_not(toks: Seq<TokenView>, pos: int, kind: TokenKind, other: TokenKind)
    requires
        is_kind(toks, pos, kind),
        kind != other,
    ensures
        !is_kind(toks, pos, other),
{
}

/// A `let` that was written, and that a closing parenthesis follows, is
/// read as the `let`, where its initial values and its body are read back.
proof fn lemma_reads_let(
    toks: Seq<TokenView>,
    pos: int,
    bindings: Seq<LetBindingView>,
    body: ExprView,
)
    requires
        bindings.len() >= 1,
        reads_values(toks, bindings),
        reads(toks, body),
        holds(
            toks,
            pos,
            sign(TokenKind::Let) + written_bindings(bindings, 0) + sign(TokenKind::In) + written(
                body,
            ),
        ),
        is_kind(
            toks,
            pos + 1 + written_bindings(bindings, 0).len() + 1 + written(body).len(),
            TokenKind::RightParen,
        ),
    ensures
        is_expr(
            toks,
            pos,
            ExprView::Let { bindings, body: Box::new(body) },
            (1 + written_bindings(bindings, 0).len() + 1 + written(body).len()) as nat,
        ),
{
    let e = ExprView::Let { bindings, body: Box::new(body) };
    let list = written_bindings(bindings, 0);
    let p_in = pos + 1 + list.len();
    let end = p_in + 1 + written(body).len();
    lemma_holds_at(
        toks,
        pos,
        sign(TokenKind::Let) + list + sign(TokenKind::In),
        written(body),
        p_in + 1,
    );
    lemma_holds_at(toks, pos, sign(TokenKind::Let) + list, sign(TokenKind::In), p_in);
    lemma_holds_at(toks, pos, sign(TokenKind::Let), list, pos + 1);
    lemma_holds_sign(toks, pos, TokenKind::Let);
    lemma_holds_sign(toks, p_in, TokenKind::In);
    let item = bindings[0];
    let one = written_declaration(item.name, item.typ, item.init);
    let more = written_bindings(bindings, 1);
    assert(list =~= one + more);
    let p = pos + 1 + one.len();
    lemma_holds_at(toks, pos + 1, one, more, p);
    lemma_follow_of_binding(toks, p, bindings, 1);
    lemma_reads_declaration(toks, pos + 1, item.name, item.typ, item.init);
    let d = (item.name, item.typ, item.init);
    assert(as_binding(d) == item);
    assert(seq![item] =~= bindings.take(1));
    lemma_reads_more_bindings(toks, p, bindings, 1);
    lemma_kind_stops(toks, end, TokenKind::RightParen);
    lemma_use_expr(toks, p_in + 1, body);
    lemma_let_atom(toks, pos, d, one.len(), bindings, more.len(), body, written(body).len());
    lemma_kind_starts(toks, pos, TokenKind::Let);
    lemma_atom_is_expr(toks, pos, e, (1 + list.len() + 1 + written(body).len()) as nat);
}

/// The branch `b`, written as `id ':' TypeId '=>' Expr`.
pub open spec fn written_branch(b: CaseBranchView) -> Seq<TokenView> {
    written_typed_name(b.name, b.typ) + sign(TokenKind::DoubleArrow) + written(b.expr)
}

/// Parsing a branch that was written, and that a semicolon or `esac`
/// follows, yields the branch.
proof fn lemma_reads_branch(toks: Seq<TokenView>, pos: int, b: CaseBranchView)
    requires
        reads(toks, b.expr),
        holds(toks, pos, written_branch(b)),
        is_kind(toks, pos + written_branch(b).len(), TokenKind::Semicolon) || is_kind(
            toks,
            pos + written_branch(b).len(),
            TokenKind::Esac,
        ),
    ensures
        is_branch(toks, pos, b, written_branch(b).len()),
{
    let end = pos + 4 + written(b.expr).len();
    lemma_holds_at(
        toks,
        pos,
        written_typed_name(b.name, b.typ) + sign(TokenKind::DoubleArrow),
        written(b.expr),
        pos + 4,
    );
    lemma_holds_at(
        toks,
        pos,
        written_typed_name(b.name, b.typ),
        sign(TokenKind::DoubleArrow),
        pos + 3,
    );
    lemma_holds_typed_name(toks, pos, b.name, b.typ);
    lemma_holds_sign(toks, pos + 3, TokenKind::DoubleArrow);
    if is_kind(toks, end, TokenKind::Semicolon) {
        lemma_kind_stops(toks, end, TokenKind::Semicolon);
    } else {
        lemma_kind_stops(toks, end, TokenKind::Esac);
    }
    lemma_use_expr(toks, pos + 4, b.expr);
    lemma_branch(toks, pos, b.expr, written(b.expr).len());
}

/// What follows a written branch is the semicolon before the next, or the
/// `esac` that ends the branches.
proof fn lemma_follow_of_branch(
    toks: Seq<TokenView>,
    pos: int,
    items: Seq<CaseBranchView>,
    from: int,
)
    requires
        1 <= from <= items.len(),
        holds(toks, pos, written_branches(items, from)),
        is_kind(toks, pos + written_branches(items, from).len(), TokenKind::Esac),
    ensures
        from < items.len() ==> is_kind(toks, pos, TokenKind::Semicolon),
        from == items.len() ==> is_kind(toks, pos, TokenKind::Esac),
{
    if from < items.len() {
        let one = written_branch(items[from]);
        let more = written_branches(items, from + 1);
        assert(written_branches(items, from) =~= sign(TokenKind::Semicolon) + one + more);
        lemma_holds_at(toks, pos, sign(TokenKind::Semicolon) + one, more, pos + 1 + one.len());
        lemma_holds_at(toks, pos, sign(TokenKind::Semicolon), one, pos + 1);
        lemma_holds_sign(toks, pos, TokenKind::Semicolon);
    }
}

/// Parsing the branches that were written from index `from` on yields
/// them, added to those before them.
proof fn lemma_reads_more_branches(
    toks: Seq<TokenView>,
    pos: int,
    items: Seq<CaseBranchView>,
    from: int,
)
    requires
        reads_branches(toks, items),
        1 <= from <= items.len(),
        holds(toks, pos, written_branches(items, from)),
        is_kind(toks, pos + written_branches(items, from).len(), TokenKind::Esac),
    ensures
        are_more_branches(toks, pos, items.take(from), items, written_branches(items, from).len()),
    decreases items.len() - from,
{
    if from < items.len() {
        let item = items[from];
        let one = written_branch(item);
        let more = written_branches(items, from + 1);
        assert(written_branches(items, from) =~= sign(TokenKind::Semicolon) + one + more);
        let p = pos + 1 + one.len();
        lemma_holds_at(toks, pos, sign(TokenKind::Semicolon) + one, more, p);
        lemma_holds_at(toks, pos, sign(TokenKind::Semicolon), one, pos + 1);
        lemma_holds_sign(toks, pos, TokenKind::Semicolon);
        lemma_follow_of_branch(toks, p, items, from + 1);
        lemma_reads_branch(toks, pos + 1, item);
        assert(items.take(from).push(item) =~= items.take(from + 1));
        lemma_reads_more_branches(toks, p, items, from + 1);
        lemma_next_branch(toks, pos, items.take(from), item, one.len(), items, more.len());
    } else {
        assert(items.take(from) =~= items);
        lemma_kind_is_not(toks, pos, TokenKind::Esac, TokenKind::Semicolon);
        lemma_last_branch(toks, pos, items);
    }
}

/// A `case` that was written, and that a closing parenthesis follows, is
/// read as the `case`, where its expressions are read back.
proof fn lemma_reads_case(
    toks: Seq<TokenView>,
    pos: int,
    subject: ExprView,
    branches: Seq<CaseBranchView>,
)
    requires
        branches.len() >= 1,
        reads(toks, subject),
        reads_branches(toks, branches),
        holds(
            toks,
            pos,
            sign(TokenKind::Case) + written(subject) + sign(TokenKind::Of) + written_branches(
                branches,
                0,
            ) + sign(TokenKind::Esac),
        ),
        is_kind(
            toks,
            pos + 1 + written(subject).len() + 1 + written_branches(branches, 0).len() + 1,
            TokenKind::RightParen,
        ),
    ensures
        is_expr(
            toks,
            pos,
            ExprView::Case { expr: Box::new(subject), branches },
            (1 + written(subject).len() + 1 + written_branches(branches, 0).len() + 1) as nat,
        ),
{
    let e = ExprView::Case { expr: Box::new(subject), branches };
    let list = written_branches(branches, 0);
    let p_of = pos + 1 + written(subject).len();
    let p_end = p_of + 1 + list.len();
    lemma_holds_at(
        toks,
        pos,
        sign(TokenKind::Case) + written(subject) + sign(TokenKind::Of) + list,
        sign(TokenKind::Esac),
        p_end,
    );
    lemma_holds_at(
        toks,
        pos,
        sign(TokenKind::Case) + written(subject) + sign(TokenKind::Of),
        list,
        p_of + 1,
    );
    lemma_holds_at(toks, pos, sign(TokenKind::Case) + written(subject), sign(TokenKind::Of), p_of);
    lemma_holds_at(toks, pos, sign(TokenKind::Case), written(subject), pos + 1);
    lemma_holds_sign(toks, pos, TokenKind::Case);
    lemma_holds_sign(toks, p_of, TokenKind::Of);
    lemma_holds_sign(toks, p_end, TokenKind::Esac);
    lemma_kind_stops(toks, p_of, TokenKind::Of);
    lemma_use_expr(toks, pos + 1, subject);
    let item = branches[0];
    let one = written_branch(item);
    let more = written_branches(branches, 1);
    assert(list =~= one + more);
    let p = p_of + 1 + one.len();
    lemma_holds_at(toks, p_of + 1, one, more, p);
    lemma_follow_of_branch(toks, p, branches, 1);
    lemma_reads_branch(toks, p_of + 1, item);
    assert(seq![item] =~= branches.take(1));
    lemma_reads_more_branches(toks, p, branches, 1);
    lemma_case_atom(
        toks,
        pos,
        subject,
        written(subject).len(),
        item,
        one.len(),
        branches,
        more.len(),
    );
    lemma_kind_starts(toks, pos, TokenKind::Case);
    lemma_kind_stops(toks, p_end + 1, TokenKind::RightParen);
    lemma_atom_is_expr(
        toks,
        pos,
        e,
        (1 + written(subject).len() + 1 + list.len() + 1) as nat,
    );
}

/// All of `items` are expressions that the grammar can yield.
pub open spec fn all_readable(items: Seq<ExprView>) -> bool {
    forall|i: int| 0 <= i < items.len() ==> readable(#[trigger] items[i])
}

/// The initial values of all of `items` are expressions that the grammar
/// can yield.
pub open spec fn values_readable(items: Seq<LetBindingView>) -> bool {
    forall|i: int|
        0 <= i < items.len() ==> ((#[trigger] items[i]).init matches Some(e) ==> readable(e))
}

/// The expressions of all of `items` are expressions that the grammar can
/// yield.
pub open spec fn branches_readable(items: Seq<CaseBranchView>) -> bool {
    forall|i: int| 0 <= i < items.len() ==> readable((#[trigger] items[i]).expr)
}

/// An expression that the grammar can yield is read back wherever it was
/// written.
pub proof fn lemma_reads(toks: Seq<TokenView>, e: ExprView)
    requires
        readable(e),
    ensures
        reads(toks, e),
    decreases e, 2int,
{
    assert forall|p: int| #[trigger] holds(toks, p, written(e)) implies is_atom(
        toks,
        p,
        e,
        written(e).len(),
    ) by {
        lemma_reads_paren(toks, p, e);
    }
}

/// Each of `items` is read back wherever it was written.
proof fn lemma_reads_each(toks: Seq<TokenView>, items: Seq<ExprView>)
    requires
        all_readable(items),
    ensures
        reads_all(toks, items),
    decreases items, 3int,
{
    assert forall|i: int| 0 <= i < items.len() implies reads(toks, #[trigger] items[i]) by {
        lemma_reads(toks, items[i]);
    }
}

/// The initial value of each of `items` is read back wherever it was
/// written.
proof fn lemma_reads_each_value(toks: Seq<TokenView>, items: Seq<LetBindingView>)
    requires
        values_readable(items),
    ensures
        reads_values(toks, items),
    decreases items, 3int,
{
    assert forall|i: int| 0 <= i < items.len() implies ((#[trigger] items[i]).init matches Some(
        e,
    ) ==> reads(toks, e)) by {
        match items[i].init {
            Some(e) => {
                lemma_reads(toks, e);
            },
            None => {},
        }
    }
}

/// The expression of each of `items` is read back wherever it was
/// written.
proof fn lemma_reads_each_branch(toks: Seq<TokenView>, items: Seq<CaseBranchView>)
    requires
        branches_readable(items),
    ensures
        reads_branches(toks, items),
    decreases items, 3int,
{
    assert forall|i: int| 0 <= i < items.len() implies reads(toks, (#[trigger] items[i]).expr) by {
        lemma_reads(toks, items[i].expr);
    }
}

/// An expression that was written within parentheses is an atom that
/// yields the expression.
proof fn lemma_reads_paren(toks: Seq<TokenView>, pos: int, e: ExprView)
    requires
        readable(e),
        holds(toks, pos, written(e)),
    ensures
        is_atom(toks, pos, e, written(e).len()),
    decreases e, 1int,
{
    lemma_holds_paren(toks, pos, e);
    lemma_reads_bare(toks, pos + 1, e);
    lemma_paren_atom(toks, pos, e, written_bare(e).len());
}

/// Parsing an expression that was written without parentheses, and that a
/// closing parenthesis follows, yields the expression.
proof fn lemma_reads_bare(toks: Seq<TokenView>, pos: int, e: ExprView)
    requires
        readable(e),
        holds(toks, pos, written_bare(e)),
        is_kind(toks, pos + written_bare(e).len(), TokenKind::RightParen),
    ensures
        is_expr(toks, pos, e, written_bare(e).len()),
    decreases e, 0int,
{
    reveal_with_fuel(written_bare, 1);
    reveal_with_fuel(readable, 1);
    reveal(binary_node);
    match e {
        ExprView::Integer(value) => {
            lemma_reads_literal(toks, pos, e, numbered(value));
        },
        ExprView::String(text) => {
            lemma_reads_literal(toks, pos, e, worded(TokenKind::String, text));
        },
        ExprView::True => {
            lemma_reads_literal(toks, pos, e, plain(TokenKind::True));
        },
        ExprView::False => {
            lemma_reads_literal(toks, pos, e, plain(TokenKind::False));
        },
        ExprView::Id(name) => {
            lemma_reads_id(toks, pos, name);
        },
        ExprView::New(t) => {
            lemma_reads_new(toks, pos, t);
        },
        ExprView::IsVoid(a) => {
            lemma_reads(toks, *a);
            lemma_reads_is_void(toks, pos, *a);
        },
        ExprView::Not(a) => {
            lemma_reads(toks, *a);
            lemma_reads_not(toks, pos, *a);
        },
        ExprView::Assign { name, expr } => {
            lemma_reads(toks, *expr);
            lemma_reads_assign(toks, pos, name, *expr);
        },
        ExprView::Times(a, b) => {
            lemma_reads(toks, *a);
            lemma_reads(toks, *b);
            lemma_reads_binary(toks, pos, *a, *b, TokenKind::Multiply);
        },
        ExprView::Divide(a, b) => {
            lemma_reads(toks, *a);
            lemma_reads(toks, *b);
            lemma_reads_binary(toks, pos, *a, *b, TokenKind::Divide);
        },
        ExprView::Plus(a, b) => {
            lemma_reads(toks, *a);
            lemma_reads(toks, *b);
            lemma_reads_binary(toks, pos, *a, *b, TokenKind::Plus);
        },
        ExprView::Minus(a, b) => {
            lemma_reads(toks, *a);
            lemma_reads(toks, *b);
            lemma_reads_binary(toks, pos, *a, *b, TokenKind::Minus);
        },
        ExprView::Lt(a, b) => {
            lemma_reads(toks, *a);
            lemma_reads(toks, *b);
            lemma_reads_binary(toks, pos, *a, *b, TokenKind::LessThan);
        },
        ExprView::Le(a, b) => {
            lemma_reads(toks, *a);
            lemma_reads(toks, *b);
            lemma_reads_binary(toks, pos, *a, *b, TokenKind::LessThanOrEqual);
        },
        ExprView::Eq(a, b) => {
            lemma_reads(toks, *a);
            lemma_reads(toks, *b);
            lemma_reads_binary(toks, pos, *a, *b, TokenKind::Equal);
        },
        ExprView::If { cond, then_branch, else_branch } => {
            lemma_reads(toks, *cond);
            lemma_reads(toks, *then_branch);
            lemma_reads(toks, *else_branch);
            lemma_reads_if(toks, pos, *cond, *then_branch, *else_branch);
        },
        ExprView::While { cond, body } => {
            lemma_reads(toks, *cond);
            lemma_reads(toks, *body);
            lemma_reads_while(toks, pos, *cond, *body);
        },
        ExprView::FuncCall { name, args } => {
            lemma_reads_each(toks, args);
            lemma_reads_call(toks, pos, name, args);
        },
        ExprView::Dispatch { expr, static_type, method, args } => {
            lemma_reads(toks, *expr);
            lemma_reads_each(toks, args);
            lemma_reads_dispatch(toks, pos, *expr, static_type, method, args);
        },
        ExprView::Block(items) => {
            lemma_reads_each(toks, items);
            lemma_reads_block(toks, pos, items);
        },
        ExprView::Let { bindings, body } => {
            lemma_reads_each_value(toks, bindings);
            lemma_reads(toks, *body);
            lemma_reads_let(toks, pos, bindings, *body);
        },
        ExprView::Case { expr, branches } => {
            lemma_reads(toks, *expr);
            lemma_reads_each_branch(toks, branches);
            lemma_reads_case(toks, pos, *expr, branches);
        },
        ExprView::Paren(_) => {},
    }
}

/// Parsing an expression that was written yields the expression: for
/// every expression that the grammar can yield.
pub proof fn lemma_expression_reads_back(e: ExprView)
    requires
        readable(e),
    ensures
        g_expression(written(e)) == Ok::<ExprView, Far>(e),
{
    let toks = written(e);
    assert(holds(toks, 0, toks)) by {
        reveal(holds);
    }
    lemma_reads(toks, e);
    lemma_use_expr(toks, 0, e);
    reveal(is_padded);
}

} // verus!
