//! The grammar reads back what was written: parsing the tokens that a
//! tree was written as yields that tree.
//!
//! The proof goes by the steps of the grammar. Each step is a lemma that
//! says what a production yields where its parts are known. The facts
//! about the parts are kept behind predicates of their own, so that each
//! lemma looks into one production only.

use vstd::prelude::*;
use crate::ast::{CaseBranchView, ExprView, LetBindingView};
use crate::grammar::{
    as_binding, binary_node, comments, g_args, g_args_rest, g_atom, g_atom_core, g_binary,
    g_binary_rest, g_block_rest, g_block_tail, g_call_tail, g_case_branch, g_case_rest, g_case_tail,
    g_declaration, g_enclosing, g_expr, g_if_branches, g_if_tail, g_let_rest, g_let_tail,
    g_method_call, g_named_tail, g_padded, g_postfix, g_postfix_rest, g_static_call, g_typed_name,
    g_unary, g_while_tail, is_kind, is_op, kind_of, merge, named_type, number_of, text_of, Far,
};
use crate::token::{TokenKind, TokenView};
use crate::written::{named, sign, written, written_bare};

verus! {

/// The tokens `written` stand in `toks` from `pos` on.
#[verifier::opaque]
pub open spec fn holds(toks: Seq<TokenView>, pos: int, written: Seq<TokenView>) -> bool {
    &&& 0 <= pos
    &&& pos + written.len() <= toks.len()
    &&& forall|i: int| 0 <= i < written.len() ==> toks[pos + i] == #[trigger] written[i]
}

/// What stands at `pos` cannot go on an expression that ends before it as
/// an operand of the given level: it is no comment, no dispatch, and no
/// operator of that level or of a tighter one. At level 3 it can go on no
/// expression at all.
pub open spec fn stops(toks: Seq<TokenView>, pos: int, level: nat) -> bool {
    &&& !is_kind(toks, pos, TokenKind::Comment)
    &&& !is_kind(toks, pos, TokenKind::Dot)
    &&& !is_kind(toks, pos, TokenKind::TypeId)
    &&& (level >= 1 ==> !is_op(toks, pos, 1))
    &&& (level >= 2 ==> !is_op(toks, pos, 2))
    &&& (level >= 3 ==> !is_op(toks, pos, 3))
}

/// The token at `pos` can start an atom that is no comment and that no
/// `not` or `~` stands before.
pub open spec fn starts(toks: Seq<TokenView>, pos: int) -> bool {
    &&& !is_kind(toks, pos, TokenKind::Comment)
    &&& !is_kind(toks, pos, TokenKind::Not)
    &&& !is_kind(toks, pos, TokenKind::Tilde)
}

/// At `pos` stands an atom that yields `e` and takes `n` tokens.
#[verifier::opaque]
pub open spec fn is_atom(toks: Seq<TokenView>, pos: int, e: ExprView, n: nat) -> bool {
    g_atom_core(toks, pos).out == Some((e, n))
}

/// At `pos` stands an operand of the given level that yields `e` and
/// takes `n` tokens. An operand of level 0 is a unary expression.
#[verifier::opaque]
pub open spec fn is_operand(
    toks: Seq<TokenView>,
    pos: int,
    level: nat,
    e: ExprView,
    n: nat,
) -> bool {
    g_binary(toks, pos, level).out == Some((e, n))
}

/// At `pos` stands an expression that yields `e` and takes `n` tokens.
#[verifier::opaque]
pub open spec fn is_expr(toks: Seq<TokenView>, pos: int, e: ExprView, n: nat) -> bool {
    g_expr(toks, pos).out == Some((e, n))
}

/// At `pos` stands an expression, with the comments around it, that
/// yields `e` and takes `n` tokens.
#[verifier::opaque]
pub open spec fn is_padded(toks: Seq<TokenView>, pos: int, e: ExprView, n: nat) -> bool {
    g_padded(toks, pos).out == Some((e, n))
}

/// No expression stands at `pos`.
#[verifier::opaque]
pub open spec fn no_expr(toks: Seq<TokenView>, pos: int) -> bool {
    g_expr(toks, pos).out is None
}

/// A token that is known to stand at a position has its kind, text and
/// value there.
proof fn lemma_token_at(toks: Seq<TokenView>, pos: int, token: TokenView)
    requires
        0 <= pos < toks.len(),
        toks[pos] == token,
    ensures
        kind_of(toks, pos) == token.kind,
        text_of(toks, pos) == token.text,
        number_of(toks, pos) == token.number,
        is_kind(toks, pos, token.kind),
{
    reveal(kind_of);
    reveal(text_of);
    reveal(number_of);
}

/// Where tokens stand one after the other, the second part stands at the
/// position `at` at which the first part ends.
pub proof fn lemma_holds_at(
    toks: Seq<TokenView>,
    pos: int,
    a: Seq<TokenView>,
    b: Seq<TokenView>,
    at: int,
)
    requires
        holds(toks, pos, a + b),
        at == pos + a.len(),
    ensures
        holds(toks, pos, a),
        holds(toks, at, b),
{
    reveal(holds);
    assert forall|i: int| 0 <= i < a.len() implies toks[pos + i] == #[trigger] a[i] by {
        assert((a + b)[i] == a[i]);
    }
    assert forall|i: int| 0 <= i < b.len() implies toks[at + i] == #[trigger] b[i] by {
        assert((a + b)[a.len() + i] == b[i]);
    }
}

/// The token of kind `kind` that stands at a position stands there.
pub proof fn lemma_holds_sign(toks: Seq<TokenView>, pos: int, kind: TokenKind)
    requires
        holds(toks, pos, sign(kind)),
    ensures
        is_kind(toks, pos, kind),
{
    reveal(holds);
    assert(toks[pos + 0] == sign(kind)[0]);
    lemma_token_at(toks, pos, sign(kind)[0]);
}

/// The token that carries a text and that stands at a position stands
/// there with its text.
pub proof fn lemma_holds_named(toks: Seq<TokenView>, pos: int, kind: TokenKind, text: Seq<char>)
    requires
        holds(toks, pos, named(kind, text)),
    ensures
        is_kind(toks, pos, kind),
        text_of(toks, pos) == text,
{
    reveal(holds);
    assert(toks[pos + 0] == named(kind, text)[0]);
    lemma_token_at(toks, pos, named(kind, text)[0]);
}

/// The one token that stands at a position stands there with its kind,
/// text and value.
pub proof fn lemma_holds_token(toks: Seq<TokenView>, pos: int, token: TokenView)
    requires
        holds(toks, pos, seq![token]),
    ensures
        is_kind(toks, pos, token.kind),
        text_of(toks, pos) == token.text,
        number_of(toks, pos) == token.number,
{
    reveal(holds);
    assert(toks[pos + 0] == seq![token][0]);
    lemma_token_at(toks, pos, token);
}

/// What was written within parentheses starts with a parenthesis, ends
/// with one, and holds the expression without them.
pub proof fn lemma_holds_paren(toks: Seq<TokenView>, pos: int, e: ExprView)
    requires
        holds(toks, pos, written(e)),
    ensures
        is_kind(toks, pos, TokenKind::LeftParen),
        starts(toks, pos),
        holds(toks, pos + 1, written_bare(e)),
        is_kind(toks, pos + 1 + written_bare(e).len(), TokenKind::RightParen),
        written(e).len() == written_bare(e).len() + 2,
{
    reveal_with_fuel(written_bare, 1);
    let bare = written_bare(e);
    lemma_holds_at(
        toks,
        pos,
        sign(TokenKind::LeftParen) + bare,
        sign(TokenKind::RightParen),
        pos + 1 + bare.len(),
    );
    lemma_holds_at(toks, pos, sign(TokenKind::LeftParen), bare, pos + 1);
    lemma_holds_sign(toks, pos, TokenKind::LeftParen);
    lemma_holds_sign(toks, pos + 1 + bare.len(), TokenKind::RightParen);
}

/// No comments stand where no comment token stands.
proof fn lemma_no_comments(toks: Seq<TokenView>, pos: int)
    requires
        !is_kind(toks, pos, TokenKind::Comment),
    ensures
        comments(toks, pos) == 0,
{
    reveal_with_fuel(comments, 1);
}

/// A token of a kind that is no comment, no dispatch and no operator goes
/// on no expression.
pub proof fn lemma_kind_stops(toks: Seq<TokenView>, pos: int, kind: TokenKind)
    requires
        is_kind(toks, pos, kind),
        kind != TokenKind::Comment,
        kind != TokenKind::Dot,
        kind != TokenKind::TypeId,
        kind != TokenKind::Multiply,
        kind != TokenKind::Divide,
        kind != TokenKind::Plus,
        kind != TokenKind::Minus,
        kind != TokenKind::LessThan,
        kind != TokenKind::LessThanOrEqual,
        kind != TokenKind::Equal,
    ensures
        stops(toks, pos, 3),
{
}

/// A token of a kind that is no comment, no `not` and no `~` can start an
/// atom.
pub proof fn lemma_kind_starts(toks: Seq<TokenView>, pos: int, kind: TokenKind)
    requires
        is_kind(toks, pos, kind),
        kind != TokenKind::Comment,
        kind != TokenKind::Not,
        kind != TokenKind::Tilde,
    ensures
        starts(toks, pos),
{
}

/// An atom that is followed by nothing that goes on an operand of the
/// given level is an operand of that level.
pub proof fn lemma_atom_is_operand(toks: Seq<TokenView>, pos: int, level: nat, e: ExprView, n: nat)
    requires
        is_atom(toks, pos, e, n),
        starts(toks, pos),
        level <= 3,
        stops(toks, pos + n, level),
    ensures
        is_operand(toks, pos, level, e, n),
    decreases level,
{
    if level == 0 {
        reveal(is_atom);
        reveal(is_operand);
        lemma_no_comments(toks, pos);
        lemma_no_comments(toks, pos + n);
        assert(g_atom(toks, pos).out == Some((e, n)));
        let far = g_atom(toks, pos).far;
        assert(g_postfix_rest(toks, pos + n, e, far).value == e);
        assert(g_postfix_rest(toks, pos + n, e, far).used == 0);
        assert(g_postfix(toks, pos).out == Some((e, n)));
        assert(g_unary(toks, pos).out == Some((e, n)));
    } else {
        lemma_atom_is_operand(toks, pos, (level - 1) as nat, e, n);
        lemma_operand_rises(toks, pos, level, e, n);
    }
}

/// An operand of one level that is followed by nothing that goes on an
/// operand of the next looser level is an operand of that level too.
pub proof fn lemma_operand_rises(toks: Seq<TokenView>, pos: int, level: nat, e: ExprView, n: nat)
    requires
        1 <= level <= 3,
        is_operand(toks, pos, (level - 1) as nat, e, n),
        !is_kind(toks, pos + n, TokenKind::Comment),
        !is_op(toks, pos + n, level),
    ensures
        is_operand(toks, pos, level, e, n),
{
    reveal(is_operand);
    lemma_no_comments(toks, pos + n);
    let first = g_binary(toks, pos, (level - 1) as nat);
    let rest = g_binary_rest(toks, pos + n, level, e, first.far);
    assert(rest.value == e && rest.used == 0);
}

/// An operand of the loosest level is an expression.
pub proof fn lemma_operand_is_expr(toks: Seq<TokenView>, pos: int, e: ExprView, n: nat)
    requires
        is_operand(toks, pos, 3, e, n),
    ensures
        is_expr(toks, pos, e, n),
{
    reveal(is_operand);
    reveal(is_expr);
    assert(g_expr(toks, pos) == g_binary(toks, pos, 3));
}

/// An atom that is followed by nothing that goes on an expression is an
/// expression.
pub proof fn lemma_atom_is_expr(toks: Seq<TokenView>, pos: int, e: ExprView, n: nat)
    requires
        is_atom(toks, pos, e, n),
        starts(toks, pos),
        stops(toks, pos + n, 3),
    ensures
        is_expr(toks, pos, e, n),
{
    lemma_atom_is_operand(toks, pos, 3, e, n);
    lemma_operand_is_expr(toks, pos, e, n);
}

/// An expression with no comment before it and none behind it is the
/// same where comments may stand around it.
pub proof fn lemma_expr_is_padded(toks: Seq<TokenView>, pos: int, e: ExprView, n: nat)
    requires
        is_expr(toks, pos, e, n),
        !is_kind(toks, pos, TokenKind::Comment),
        !is_kind(toks, pos + n, TokenKind::Comment),
    ensures
        is_padded(toks, pos, e, n),
{
    reveal(is_expr);
    reveal(is_padded);
    lemma_no_comments(toks, pos);
    lemma_no_comments(toks, pos + n);
}

/// No expression starts with a closing parenthesis.
pub proof fn lemma_no_expr_at_paren(toks: Seq<TokenView>, pos: int)
    requires
        is_kind(toks, pos, TokenKind::RightParen),
    ensures
        no_expr(toks, pos),
{
    reveal(no_expr);
    lemma_no_comments(toks, pos);
    assert(g_enclosing(toks, pos).out is None);
    assert(g_atom_core(toks, pos).out is None);
    assert(g_atom(toks, pos).out is None);
    assert(g_postfix(toks, pos).out is None);
    assert(g_unary(toks, pos).out is None);
    assert(g_binary(toks, pos, 0).out is None);
    assert(g_binary(toks, pos, 1).out is None);
    assert(g_binary(toks, pos, 2).out is None);
    assert(g_binary(toks, pos, 3).out is None);
}

/// An expression between parentheses is an atom that yields the
/// expression.
pub proof fn lemma_paren_atom(toks: Seq<TokenView>, pos: int, e: ExprView, n: nat)
    requires
        is_kind(toks, pos, TokenKind::LeftParen),
        is_expr(toks, pos + 1, e, n),
        is_kind(toks, pos + 1 + n, TokenKind::RightParen),
    ensures
        is_atom(toks, pos, e, (n + 2) as nat),
{
    reveal(is_atom);
    reveal(is_expr);
    assert(g_enclosing(toks, pos).out == Some((e, (n + 2) as nat)));
}

/// An integer, a string, `true` and `false` are atoms.
pub proof fn lemma_literal_atom(toks: Seq<TokenView>, pos: int)
    ensures
        is_kind(toks, pos, TokenKind::Integer) ==> is_atom(
            toks,
            pos,
            ExprView::Integer(number_of(toks, pos)),
            1,
        ),
        is_kind(toks, pos, TokenKind::String) ==> is_atom(
            toks,
            pos,
            ExprView::String(text_of(toks, pos)),
            1,
        ),
        is_kind(toks, pos, TokenKind::True) ==> is_atom(toks, pos, ExprView::True, 1),
        is_kind(toks, pos, TokenKind::False) ==> is_atom(toks, pos, ExprView::False, 1),
{
    reveal(is_atom);
}

/// An identifier that no arrow and no parenthesis follows is an atom.
pub proof fn lemma_id_atom(toks: Seq<TokenView>, pos: int)
    requires
        is_kind(toks, pos, TokenKind::ObjectIdentifier),
        !is_kind(toks, pos + 1, TokenKind::Assign),
        !is_kind(toks, pos + 1, TokenKind::LeftParen),
    ensures
        is_atom(toks, pos, ExprView::Id(text_of(toks, pos)), 1),
{
    reveal(is_atom);
    let found = g_named_tail(toks, pos + 1, text_of(toks, pos));
    assert(g_call_tail(toks, pos + 1).out is None);
    assert(found.value == ExprView::Id(text_of(toks, pos)) && found.used == 0);
}

/// `new` and the name of a type are an atom.
pub proof fn lemma_new_atom(toks: Seq<TokenView>, pos: int)
    requires
        is_kind(toks, pos, TokenKind::New),
        is_kind(toks, pos + 1, TokenKind::TypeIdentifier),
    ensures
        is_atom(toks, pos, ExprView::New(text_of(toks, pos + 1)), 2),
{
    reveal(is_atom);
    reveal(named_type);
}

/// `isvoid` and an expression are an atom.
pub proof fn lemma_is_void_atom(toks: Seq<TokenView>, pos: int, a: ExprView, n: nat)
    requires
        is_kind(toks, pos, TokenKind::Isvoid),
        is_expr(toks, pos + 1, a, n),
    ensures
        is_atom(toks, pos, ExprView::IsVoid(Box::new(a)), (1 + n) as nat),
{
    reveal(is_atom);
    reveal(is_expr);
}

/// `not` and a unary expression are a unary expression.
pub proof fn lemma_not_operand(toks: Seq<TokenView>, pos: int, a: ExprView, n: nat)
    requires
        is_kind(toks, pos, TokenKind::Not),
        is_operand(toks, pos + 1, 0, a, n),
    ensures
        is_operand(toks, pos, 0, ExprView::Not(Box::new(a)), (1 + n) as nat),
{
    reveal(is_operand);
    assert(g_unary(toks, pos + 1) == g_binary(toks, pos + 1, 0));
    assert(g_unary(toks, pos).out == Some((ExprView::Not(Box::new(a)), (1 + n) as nat)));
}

/// An identifier, an arrow and an expression are an atom.
pub proof fn lemma_assign_atom(toks: Seq<TokenView>, pos: int, a: ExprView, n: nat)
    requires
        is_kind(toks, pos, TokenKind::ObjectIdentifier),
        is_kind(toks, pos + 1, TokenKind::Assign),
        is_expr(toks, pos + 2, a, n),
    ensures
        is_atom(
            toks,
            pos,
            ExprView::Assign { name: text_of(toks, pos), expr: Box::new(a) },
            (2 + n) as nat,
        ),
{
    reveal(is_atom);
    reveal(is_expr);
    let found = g_named_tail(toks, pos + 1, text_of(toks, pos));
    assert(found.used == 1 + n);
}

/// An operand, an operator of a level and an operand, with nothing behind
/// them that goes on an operand of that level, are an operand of that
/// level: the node that the operator builds.
pub proof fn lemma_binary_operand(
    toks: Seq<TokenView>,
    pos: int,
    level: nat,
    a: ExprView,
    n1: nat,
    b: ExprView,
    n2: nat,
)
    requires
        1 <= level <= 3,
        is_operand(toks, pos, (level - 1) as nat, a, n1),
        is_op(toks, pos + n1, level),
        !is_kind(toks, pos + n1 + 1, TokenKind::Comment),
        is_operand(toks, pos + n1 + 1, (level - 1) as nat, b, n2),
        !is_kind(toks, pos + n1 + 1 + n2, TokenKind::Comment),
        !is_op(toks, pos + n1 + 1 + n2, level),
    ensures
        is_operand(
            toks,
            pos,
            level,
            binary_node(kind_of(toks, pos + n1), a, b),
            (n1 + 1 + n2) as nat,
        ),
{
    reveal(is_operand);
    let p1 = pos + n1;
    let end = p1 + 1 + n2;
    lemma_no_comments(toks, p1);
    lemma_no_comments(toks, p1 + 1);
    lemma_no_comments(toks, end);
    let first = g_binary(toks, pos, (level - 1) as nat);
    let rhs = g_binary(toks, p1 + 1, (level - 1) as nat);
    let e = binary_node(kind_of(toks, p1), a, b);
    let last = g_binary_rest(toks, end, level, e, merge(first.far, rhs.far));
    assert(last.value == e && last.used == 0);
    let rest = g_binary_rest(toks, p1, level, a, first.far);
    assert(rest.value == e && rest.used == 1 + n2);
}

/// A condition, `loop`, a body and `pool` behind `while` are an atom.
pub proof fn lemma_while_atom(
    toks: Seq<TokenView>,
    pos: int,
    c: ExprView,
    n1: nat,
    b: ExprView,
    n2: nat,
)
    requires
        is_kind(toks, pos, TokenKind::While),
        is_padded(toks, pos + 1, c, n1),
        is_kind(toks, pos + 1 + n1, TokenKind::Loop),
        is_padded(toks, pos + 1 + n1 + 1, b, n2),
        is_kind(toks, pos + 1 + n1 + 1 + n2, TokenKind::Pool),
    ensures
        is_atom(
            toks,
            pos,
            ExprView::While { cond: Box::new(c), body: Box::new(b) },
            (1 + n1 + 1 + n2 + 1) as nat,
        ),
{
    reveal(is_atom);
    reveal(is_padded);
    let e = ExprView::While { cond: Box::new(c), body: Box::new(b) };
    assert(g_while_tail(toks, pos + 1).out == Some((e, (n1 + 1 + n2 + 1) as nat)));
    assert(g_enclosing(toks, pos).out == Some((e, (1 + n1 + 1 + n2 + 1) as nat)));
}

/// A branch, `else`, a branch and `fi` are the branches of an `if`.
proof fn lemma_if_branches(
    toks: Seq<TokenView>,
    pos: int,
    t: ExprView,
    n2: nat,
    f: ExprView,
    n3: nat,
)
    requires
        is_padded(toks, pos, t, n2),
        is_kind(toks, pos + n2, TokenKind::Else),
        is_padded(toks, pos + n2 + 1, f, n3),
        is_kind(toks, pos + n2 + 1 + n3, TokenKind::Fi),
    ensures
        g_if_branches(toks, pos).out == Some(((t, f), (n2 + 1 + n3 + 1) as nat)),
{
    reveal(is_padded);
}

/// A condition, `then` and the branches of an `if` are an `if` after its
/// keyword.
proof fn lemma_if_tail(
    toks: Seq<TokenView>,
    pos: int,
    c: ExprView,
    n1: nat,
    t: ExprView,
    f: ExprView,
    n: nat,
)
    requires
        is_padded(toks, pos, c, n1),
        is_kind(toks, pos + n1, TokenKind::Then),
        g_if_branches(toks, pos + n1 + 1).out == Some(((t, f), n)),
    ensures
        g_if_tail(toks, pos).out == Some(
            (
                ExprView::If {
                    cond: Box::new(c),
                    then_branch: Box::new(t),
                    else_branch: Box::new(f),
                },
                (n1 + 1 + n) as nat,
            ),
        ),
{
    reveal(is_padded);
}

/// A condition, `then`, a branch, `else`, a branch and `fi` behind `if`
/// are an atom.
pub proof fn lemma_if_atom(
    toks: Seq<TokenView>,
    pos: int,
    c: ExprView,
    n1: nat,
    t: ExprView,
    n2: nat,
    f: ExprView,
    n3: nat,
)
    requires
        is_kind(toks, pos, TokenKind::If),
        is_padded(toks, pos + 1, c, n1),
        is_kind(toks, pos + 1 + n1, TokenKind::Then),
        is_padded(toks, pos + 1 + n1 + 1, t, n2),
        is_kind(toks, pos + 1 + n1 + 1 + n2, TokenKind::Else),
        is_padded(toks, pos + 1 + n1 + 1 + n2 + 1, f, n3),
        is_kind(toks, pos + 1 + n1 + 1 + n2 + 1 + n3, TokenKind::Fi),
    ensures
        is_atom(
            toks,
            pos,
            ExprView::If { cond: Box::new(c), then_branch: Box::new(t), else_branch: Box::new(f) },
            (1 + n1 + 1 + n2 + 1 + n3 + 1) as nat,
        ),
{
    let e = ExprView::If { cond: Box::new(c), then_branch: Box::new(t), else_branch: Box::new(f) };
    let p1 = pos + 1 + n1;
    lemma_if_branches(toks, p1 + 1, t, n2, f, n3);
    lemma_if_tail(toks, pos + 1, c, n1, t, f, (n2 + 1 + n3 + 1) as nat);
    reveal(is_atom);
    assert(g_enclosing(toks, pos).out == Some((e, (1 + n1 + 1 + n2 + 1 + n3 + 1) as nat)));
}

/// At `pos` stand the arguments `items` of a call, which take `n` tokens.
#[verifier::opaque]
pub open spec fn are_args(toks: Seq<TokenView>, pos: int, items: Seq<ExprView>, n: nat) -> bool {
    g_args(toks, pos).value == items && g_args(toks, pos).used == n
}

/// At `pos` stand the arguments that follow those in `acc`: with them the
/// arguments are `items`, and those that follow take `n` tokens.
#[verifier::opaque]
pub open spec fn are_more_args(
    toks: Seq<TokenView>,
    pos: int,
    acc: Seq<ExprView>,
    items: Seq<ExprView>,
    n: nat,
) -> bool {
    forall|far: Far|
        (#[trigger] g_args_rest(toks, pos, acc, far)).value == items && g_args_rest(
            toks,
            pos,
            acc,
            far,
        ).used == n
}

/// At `pos` stand the arguments `args` of a call between parentheses,
/// which take `n` tokens.
#[verifier::opaque]
pub open spec fn is_call_tail(toks: Seq<TokenView>, pos: int, args: Seq<ExprView>, n: nat) -> bool {
    g_call_tail(toks, pos).out == Some((args, n))
}

/// At `pos` stand the expressions of a block that follow those in `acc`:
/// with them the expressions are `items`, and those that follow take `n`
/// tokens.
#[verifier::opaque]
pub open spec fn are_more_items(
    toks: Seq<TokenView>,
    pos: int,
    acc: Seq<ExprView>,
    items: Seq<ExprView>,
    n: nat,
) -> bool {
    forall|far: Far|
        (#[trigger] g_block_rest(toks, pos, acc, far)).value == items && g_block_rest(
            toks,
            pos,
            acc,
            far,
        ).used == n
}

/// Where no expression stands, no arguments stand.
pub proof fn lemma_no_args(toks: Seq<TokenView>, pos: int)
    requires
        no_expr(toks, pos),
    ensures
        are_args(toks, pos, Seq::empty(), 0),
{
    reveal(no_expr);
    reveal(are_args);
}

/// An expression and the arguments that follow it are the arguments.
pub proof fn lemma_first_arg(
    toks: Seq<TokenView>,
    pos: int,
    e: ExprView,
    n: nat,
    items: Seq<ExprView>,
    m: nat,
)
    requires
        is_expr(toks, pos, e, n),
        are_more_args(toks, pos + n, seq![e], items, m),
    ensures
        are_args(toks, pos, items, (n + m) as nat),
{
    reveal(is_expr);
    reveal(are_args);
    reveal(are_more_args);
    let far = g_expr(toks, pos).far;
    assert(g_args_rest(toks, pos + n, seq![e], far).value == items);
}

/// Where no comma stands, no more arguments stand.
pub proof fn lemma_last_arg(toks: Seq<TokenView>, pos: int, acc: Seq<ExprView>)
    requires
        !is_kind(toks, pos, TokenKind::Comma),
    ensures
        are_more_args(toks, pos, acc, acc, 0),
{
    reveal(are_more_args);
}

/// A comma, an expression and the arguments that follow it are the
/// arguments that follow.
pub proof fn lemma_next_arg(
    toks: Seq<TokenView>,
    pos: int,
    acc: Seq<ExprView>,
    e: ExprView,
    n: nat,
    items: Seq<ExprView>,
    m: nat,
)
    requires
        is_kind(toks, pos, TokenKind::Comma),
        is_expr(toks, pos + 1, e, n),
        are_more_args(toks, pos + 1 + n, acc.push(e), items, m),
    ensures
        are_more_args(toks, pos, acc, items, (1 + n + m) as nat),
{
    reveal(is_expr);
    reveal(are_more_args);
    assert forall|far: Far|
        (#[trigger] g_args_rest(toks, pos, acc, far)).value == items && g_args_rest(
            toks,
            pos,
            acc,
            far,
        ).used == 1 + n + m by {
        let next = g_expr(toks, pos + 1);
        let rest = g_args_rest(toks, pos + 1 + n, acc.push(e), merge(far, next.far));
        assert(rest.value == items && rest.used == m);
    }
}

/// Arguments between parentheses are the arguments of a call.
pub proof fn lemma_call_tail(toks: Seq<TokenView>, pos: int, args: Seq<ExprView>, n: nat)
    requires
        is_kind(toks, pos, TokenKind::LeftParen),
        are_args(toks, pos + 1, args, n),
        is_kind(toks, pos + 1 + n, TokenKind::RightParen),
    ensures
        is_call_tail(toks, pos, args, (n + 2) as nat),
{
    reveal(are_args);
    reveal(is_call_tail);
}

/// An identifier and the arguments of a call are an atom.
pub proof fn lemma_call_atom(toks: Seq<TokenView>, pos: int, args: Seq<ExprView>, n: nat)
    requires
        is_kind(toks, pos, TokenKind::ObjectIdentifier),
        is_kind(toks, pos + 1, TokenKind::LeftParen),
        is_call_tail(toks, pos + 1, args, n),
    ensures
        is_atom(
            toks,
            pos,
            ExprView::FuncCall { name: text_of(toks, pos), args },
            (1 + n) as nat,
        ),
{
    reveal(is_atom);
    reveal(is_call_tail);
    let found = g_named_tail(toks, pos + 1, text_of(toks, pos));
    assert(found.used == n);
}

/// A receiver and what was found behind it, with nothing behind that
/// which goes on an expression, are an expression.
proof fn lemma_receiver(toks: Seq<TokenView>, pos: int, recv: ExprView, n: nat, e: ExprView, m: nat)
    requires
        is_atom(toks, pos, recv, n),
        starts(toks, pos),
        !is_kind(toks, pos + n, TokenKind::Comment),
        forall|far: Far|
            (#[trigger] g_postfix_rest(toks, pos + n, recv, far)).value == e && g_postfix_rest(
                toks,
                pos + n,
                recv,
                far,
            ).used == m,
        stops(toks, pos + n + m, 3),
    ensures
        is_expr(toks, pos, e, (n + m) as nat),
{
    reveal(is_atom);
    lemma_no_comments(toks, pos);
    lemma_no_comments(toks, pos + n);
    let atom = g_atom(toks, pos);
    assert(atom.out == Some((recv, n)));
    let rest = g_postfix_rest(toks, pos + n, recv, atom.far);
    assert(rest.value == e && rest.used == m);
    assert(g_postfix(toks, pos).out == Some((e, (n + m) as nat)));
    assert(g_unary(toks, pos).out == Some((e, (n + m) as nat)));
    assert(is_operand(toks, pos, 0, e, (n + m) as nat)) by {
        reveal(is_operand);
    }
    lemma_operand_rises(toks, pos, 1, e, (n + m) as nat);
    lemma_operand_rises(toks, pos, 2, e, (n + m) as nat);
    lemma_operand_rises(toks, pos, 3, e, (n + m) as nat);
    lemma_operand_is_expr(toks, pos, e, (n + m) as nat);
}

/// A dot, the name of a method and the arguments of a call, with a
/// closing parenthesis behind them, are one dispatch on the receiver.
proof fn lemma_dynamic_step(
    toks: Seq<TokenView>,
    pos: int,
    recv: ExprView,
    args: Seq<ExprView>,
    n: nat,
    far: Far,
)
    requires
        is_kind(toks, pos, TokenKind::Dot),
        is_kind(toks, pos + 1, TokenKind::ObjectIdentifier),
        is_call_tail(toks, pos + 2, args, n),
        is_kind(toks, pos + 2 + n, TokenKind::RightParen),
    ensures
        g_postfix_rest(toks, pos, recv, far).value == (ExprView::Dispatch {
            expr: Box::new(recv),
            static_type: None,
            method: text_of(toks, pos + 1),
            args,
        }),
        g_postfix_rest(toks, pos, recv, far).used == 2 + n,
{
    reveal(is_call_tail);
    let e = ExprView::Dispatch {
        expr: Box::new(recv),
        static_type: None,
        method: text_of(toks, pos + 1),
        args,
    };
    let call = g_method_call(toks, pos + 1);
    assert(call.out == Some(((text_of(toks, pos + 1), args), (1 + n) as nat)));
    let last = g_postfix_rest(toks, pos + 2 + n, e, merge(far, call.far));
    assert(last.value == e && last.used == 0);
}

/// An at sign, the name of a type, a dot, the name of a method and the
/// arguments of a call, with a closing parenthesis behind them, are one
/// dispatch on the receiver.
proof fn lemma_static_step(
    toks: Seq<TokenView>,
    pos: int,
    recv: ExprView,
    args: Seq<ExprView>,
    n: nat,
    far: Far,
)
    requires
        is_kind(toks, pos, TokenKind::TypeId),
        is_kind(toks, pos + 1, TokenKind::TypeIdentifier),
        is_kind(toks, pos + 2, TokenKind::Dot),
        is_kind(toks, pos + 3, TokenKind::ObjectIdentifier),
        is_call_tail(toks, pos + 4, args, n),
        is_kind(toks, pos + 4 + n, TokenKind::RightParen),
    ensures
        g_postfix_rest(toks, pos, recv, far).value == (ExprView::Dispatch {
            expr: Box::new(recv),
            static_type: Some(text_of(toks, pos + 1)),
            method: text_of(toks, pos + 3),
            args,
        }),
        g_postfix_rest(toks, pos, recv, far).used == 4 + n,
{
    reveal(is_call_tail);
    reveal(named_type);
    let e = ExprView::Dispatch {
        expr: Box::new(recv),
        static_type: Some(text_of(toks, pos + 1)),
        method: text_of(toks, pos + 3),
        args,
    };
    let method = g_method_call(toks, pos + 3);
    assert(method.out == Some(((text_of(toks, pos + 3), args), (1 + n) as nat)));
    let call = g_static_call(toks, pos + 1);
    assert(call.out == Some(
        ((text_of(toks, pos + 1), text_of(toks, pos + 3), args), (3 + n) as nat),
    ));
    let last = g_postfix_rest(toks, pos + 4 + n, e, merge(far, call.far));
    assert(last.value == e && last.used == 0);
}

/// A receiver, a dot, the name of a method and the arguments of a call,
/// with a closing parenthesis behind them, are a dispatch.
pub proof fn lemma_dynamic_dispatch(
    toks: Seq<TokenView>,
    pos: int,
    recv: ExprView,
    n: nat,
    args: Seq<ExprView>,
    m: nat,
)
    requires
        is_atom(toks, pos, recv, n),
        starts(toks, pos),
        is_kind(toks, pos + n, TokenKind::Dot),
        is_kind(toks, pos + n + 1, TokenKind::ObjectIdentifier),
        is_call_tail(toks, pos + n + 2, args, m),
        is_kind(toks, pos + n + 2 + m, TokenKind::RightParen),
    ensures
        is_expr(
            toks,
            pos,
            ExprView::Dispatch {
                expr: Box::new(recv),
                static_type: None,
                method: text_of(toks, pos + n + 1),
                args,
            },
            (n + 2 + m) as nat,
        ),
{
    let e = ExprView::Dispatch {
        expr: Box::new(recv),
        static_type: None,
        method: text_of(toks, pos + n + 1),
        args,
    };
    assert forall|far: Far|
        (#[trigger] g_postfix_rest(toks, pos + n, recv, far)).value == e && g_postfix_rest(
            toks,
            pos + n,
            recv,
            far,
        ).used == 2 + m by {
        lemma_dynamic_step(toks, pos + n, recv, args, m, far);
    }
    lemma_kind_stops(toks, pos + n + 2 + m, TokenKind::RightParen);
    lemma_receiver(toks, pos, recv, n, e, (2 + m) as nat);
}

/// A receiver, an at sign, the name of a type, a dot, the name of a method
/// and the arguments of a call, with a closing parenthesis behind them,
/// are a dispatch.
pub proof fn lemma_static_dispatch(
    toks: Seq<TokenView>,
    pos: int,
    recv: ExprView,
    n: nat,
    args: Seq<ExprView>,
    m: nat,
)
    requires
        is_atom(toks, pos, recv, n),
        starts(toks, pos),
        is_kind(toks, pos + n, TokenKind::TypeId),
        is_kind(toks, pos + n + 1, TokenKind::TypeIdentifier),
        is_kind(toks, pos + n + 2, TokenKind::Dot),
        is_kind(toks, pos + n + 3, TokenKind::ObjectIdentifier),
        is_call_tail(toks, pos + n + 4, args, m),
        is_kind(toks, pos + n + 4 + m, TokenKind::RightParen),
    ensures
        is_expr(
            toks,
            pos,
            ExprView::Dispatch {
                expr: Box::new(recv),
                static_type: Some(text_of(toks, pos + n + 1)),
                method: text_of(toks, pos + n + 3),
                args,
            },
            (n + 4 + m) as nat,
        ),
{
    let e = ExprView::Dispatch {
        expr: Box::new(recv),
        static_type: Some(text_of(toks, pos + n + 1)),
        method: text_of(toks, pos + n + 3),
        args,
    };
    assert forall|far: Far|
        (#[trigger] g_postfix_rest(toks, pos + n, recv, far)).value == e && g_postfix_rest(
            toks,
            pos + n,
            recv,
            far,
        ).used == 4 + m by {
        lemma_static_step(toks, pos + n, recv, args, m, far);
    }
    lemma_kind_stops(toks, pos + n + 4 + m, TokenKind::RightParen);
    lemma_receiver(toks, pos, recv, n, e, (4 + m) as nat);
}

/// Where neither a dot nor a semicolon stands, no more expressions of a
/// block stand.
pub proof fn lemma_last_item(toks: Seq<TokenView>, pos: int, acc: Seq<ExprView>)
    requires
        !is_kind(toks, pos, TokenKind::Dot),
        !is_kind(toks, pos, TokenKind::Semicolon),
    ensures
        are_more_items(toks, pos, acc, acc, 0),
{
    reveal(are_more_items);
}

/// A semicolon, an expression and the expressions that follow it are the
/// expressions of a block that follow.
pub proof fn lemma_next_item(
    toks: Seq<TokenView>,
    pos: int,
    acc: Seq<ExprView>,
    e: ExprView,
    n: nat,
    items: Seq<ExprView>,
    m: nat,
)
    requires
        is_kind(toks, pos, TokenKind::Semicolon),
        is_padded(toks, pos + 1, e, n),
        are_more_items(toks, pos + 1 + n, acc.push(e), items, m),
    ensures
        are_more_items(toks, pos, acc, items, (1 + n + m) as nat),
{
    reveal(is_padded);
    reveal(are_more_items);
    assert forall|far: Far|
        (#[trigger] g_block_rest(toks, pos, acc, far)).value == items && g_block_rest(
            toks,
            pos,
            acc,
            far,
        ).used == 1 + n + m by {
        let next = g_padded(toks, pos + 1);
        let rest = g_block_rest(toks, pos + 1 + n, acc.push(e), merge(far, next.far));
        assert(rest.value == items && rest.used == m);
    }
}

/// An expression, the expressions that follow it and a closing brace
/// behind an opening brace are an atom.
pub proof fn lemma_block_atom(
    toks: Seq<TokenView>,
    pos: int,
    first: ExprView,
    n: nat,
    items: Seq<ExprView>,
    m: nat,
)
    requires
        is_kind(toks, pos, TokenKind::LeftBrace),
        is_padded(toks, pos + 1, first, n),
        are_more_items(toks, pos + 1 + n, seq![first], items, m),
        is_kind(toks, pos + 1 + n + m, TokenKind::RightBrace),
    ensures
        is_atom(toks, pos, ExprView::Block(items), (1 + n + m + 1) as nat),
{
    reveal(is_atom);
    reveal(is_padded);
    reveal(are_more_items);
    lemma_no_comments(toks, pos + 1 + n + m);
    let far = g_padded(toks, pos + 1).far;
    let rest = g_block_rest(toks, pos + 1 + n, seq![first], far);
    assert(rest.value == items && rest.used == m);
    assert(g_block_tail(toks, pos + 1).out == Some(
        (ExprView::Block(items), (n + m + 1) as nat),
    ));
    assert(g_enclosing(toks, pos).out == Some(
        (ExprView::Block(items), (1 + n + m + 1) as nat),
    ));
}

/// At `pos` stands a declaration with the given name, type and initial
/// value, which takes `n` tokens.
#[verifier::opaque]
pub open spec fn is_declaration(
    toks: Seq<TokenView>,
    pos: int,
    d: (Seq<char>, Seq<char>, Option<ExprView>),
    n: nat,
) -> bool {
    g_declaration(toks, pos).out == Some((d, n))
}

/// At `pos` stand the bindings of a `let` that follow those in `acc`:
/// with them the bindings are `items`, and those that follow take `n`
/// tokens.
#[verifier::opaque]
pub open spec fn are_more_bindings(
    toks: Seq<TokenView>,
    pos: int,
    acc: Seq<LetBindingView>,
    items: Seq<LetBindingView>,
    n: nat,
) -> bool {
    forall|far: Far|
        (#[trigger] g_let_rest(toks, pos, acc, far)).value == items && g_let_rest(
            toks,
            pos,
            acc,
            far,
        ).used == n
}

/// At `pos` stands the branch `b` of a `case`, which takes `n` tokens.
#[verifier::opaque]
pub open spec fn is_branch(toks: Seq<TokenView>, pos: int, b: CaseBranchView, n: nat) -> bool {
    g_case_branch(toks, pos).out == Some((b, n))
}

/// At `pos` stand the branches of a `case` that follow those in `acc`:
/// with them the branches are `items`, and those that follow take `n`
/// tokens.
#[verifier::opaque]
pub open spec fn are_more_branches(
    toks: Seq<TokenView>,
    pos: int,
    acc: Seq<CaseBranchView>,
    items: Seq<CaseBranchView>,
    n: nat,
) -> bool {
    forall|far: Far|
        (#[trigger] g_case_rest(toks, pos, acc, far)).value == items && g_case_rest(
            toks,
            pos,
            acc,
            far,
        ).used == n
}

/// A name, a colon and the name of a type that no arrow follows are a
/// declaration without an initial value.
pub proof fn lemma_plain_declaration(toks: Seq<TokenView>, pos: int)
    requires
        is_kind(toks, pos, TokenKind::ObjectIdentifier),
        is_kind(toks, pos + 1, TokenKind::Colon),
        is_kind(toks, pos + 2, TokenKind::TypeIdentifier),
        !is_kind(toks, pos + 3, TokenKind::Assign),
    ensures
        is_declaration(toks, pos, (text_of(toks, pos), text_of(toks, pos + 2), None), 3),
{
    reveal(is_declaration);
    reveal(g_typed_name);
    reveal(named_type);
}

/// A name, a colon, the name of a type, an arrow and an expression are a
/// declaration with an initial value.
pub proof fn lemma_declaration_with_value(toks: Seq<TokenView>, pos: int, e: ExprView, n: nat)
    requires
        is_kind(toks, pos, TokenKind::ObjectIdentifier),
        is_kind(toks, pos + 1, TokenKind::Colon),
        is_kind(toks, pos + 2, TokenKind::TypeIdentifier),
        is_kind(toks, pos + 3, TokenKind::Assign),
        is_expr(toks, pos + 4, e, n),
    ensures
        is_declaration(
            toks,
            pos,
            (text_of(toks, pos), text_of(toks, pos + 2), Some(e)),
            (4 + n) as nat,
        ),
{
    reveal(is_declaration);
    reveal(is_expr);
    reveal(g_typed_name);
    reveal(named_type);
}

/// Where no comma stands, no more bindings stand.
pub proof fn lemma_last_binding(toks: Seq<TokenView>, pos: int, acc: Seq<LetBindingView>)
    requires
        !is_kind(toks, pos, TokenKind::Comma),
    ensures
        are_more_bindings(toks, pos, acc, acc, 0),
{
    reveal(are_more_bindings);
}

/// A comma, a declaration and the bindings that follow it are the
/// bindings that follow.
pub proof fn lemma_next_binding(
    toks: Seq<TokenView>,
    pos: int,
    acc: Seq<LetBindingView>,
    d: (Seq<char>, Seq<char>, Option<ExprView>),
    n: nat,
    items: Seq<LetBindingView>,
    m: nat,
)
    requires
        is_kind(toks, pos, TokenKind::Comma),
        is_declaration(toks, pos + 1, d, n),
        are_more_bindings(toks, pos + 1 + n, acc.push(as_binding(d)), items, m),
    ensures
        are_more_bindings(toks, pos, acc, items, (1 + n + m) as nat),
{
    reveal(is_declaration);
    reveal(are_more_bindings);
    assert forall|far: Far|
        (#[trigger] g_let_rest(toks, pos, acc, far)).value == items && g_let_rest(
            toks,
            pos,
            acc,
            far,
        ).used == 1 + n + m by {
        let next = g_declaration(toks, pos + 1);
        let rest = g_let_rest(toks, pos + 1 + n, acc.push(as_binding(d)), merge(far, next.far));
        assert(rest.value == items && rest.used == m);
    }
}

/// A declaration, the bindings that follow it, `in` and a body behind
/// `let` are an atom.
pub proof fn lemma_let_atom(
    toks: Seq<TokenView>,
    pos: int,
    d: (Seq<char>, Seq<char>, Option<ExprView>),
    n1: nat,
    items: Seq<LetBindingView>,
    m: nat,
    body: ExprView,
    n2: nat,
)
    requires
        is_kind(toks, pos, TokenKind::Let),
        is_declaration(toks, pos + 1, d, n1),
        are_more_bindings(toks, pos + 1 + n1, seq![as_binding(d)], items, m),
        is_kind(toks, pos + 1 + n1 + m, TokenKind::In),
        is_padded(toks, pos + 1 + n1 + m + 1, body, n2),
    ensures
        is_atom(
            toks,
            pos,
            ExprView::Let { bindings: items, body: Box::new(body) },
            (1 + n1 + m + 1 + n2) as nat,
        ),
{
    reveal(is_atom);
    reveal(is_declaration);
    reveal(is_padded);
    reveal(are_more_bindings);
    let e = ExprView::Let { bindings: items, body: Box::new(body) };
    let far = g_declaration(toks, pos + 1).far;
    let rest = g_let_rest(toks, pos + 1 + n1, seq![as_binding(d)], far);
    assert(rest.value == items && rest.used == m);
    assert(g_let_tail(toks, pos + 1).out == Some((e, (n1 + m + 1 + n2) as nat)));
    assert(g_enclosing(toks, pos).out == Some((e, (1 + n1 + m + 1 + n2) as nat)));
}

/// A name, a colon, the name of a type, a double arrow and an expression
/// are a branch.
pub proof fn lemma_branch(toks: Seq<TokenView>, pos: int, e: ExprView, n: nat)
    requires
        is_kind(toks, pos, TokenKind::ObjectIdentifier),
        is_kind(toks, pos + 1, TokenKind::Colon),
        is_kind(toks, pos + 2, TokenKind::TypeIdentifier),
        is_kind(toks, pos + 3, TokenKind::DoubleArrow),
        is_expr(toks, pos + 4, e, n),
    ensures
        is_branch(
            toks,
            pos,
            CaseBranchView { name: text_of(toks, pos), typ: text_of(toks, pos + 2), expr: e },
            (4 + n) as nat,
        ),
{
    reveal(is_branch);
    reveal(is_expr);
    reveal(g_typed_name);
    reveal(named_type);
}

/// Where no semicolon stands, no more branches stand.
pub proof fn lemma_last_branch(toks: Seq<TokenView>, pos: int, acc: Seq<CaseBranchView>)
    requires
        !is_kind(toks, pos, TokenKind::Semicolon),
    ensures
        are_more_branches(toks, pos, acc, acc, 0),
{
    reveal(are_more_branches);
}

/// A semicolon, a branch and the branches that follow it are the branches
/// that follow.
pub proof fn lemma_next_branch(
    toks: Seq<TokenView>,
    pos: int,
    acc: Seq<CaseBranchView>,
    b: CaseBranchView,
    n: nat,
    items: Seq<CaseBranchView>,
    m: nat,
)
    requires
        is_kind(toks, pos, TokenKind::Semicolon),
        is_branch(toks, pos + 1, b, n),
        are_more_branches(toks, pos + 1 + n, acc.push(b), items, m),
    ensures
        are_more_branches(toks, pos, acc, items, (1 + n + m) as nat),
{
    reveal(is_branch);
    reveal(are_more_branches);
    assert forall|far: Far|
        (#[trigger] g_case_rest(toks, pos, acc, far)).value == items && g_case_rest(
            toks,
            pos,
            acc,
            far,
        ).used == 1 + n + m by {
        let next = g_case_branch(toks, pos + 1);
        let rest = g_case_rest(toks, pos + 1 + n, acc.push(b), merge(far, next.far));
        assert(rest.value == items && rest.used == m);
    }
}

/// An expression, `of`, a branch, the branches that follow it and `esac`
/// behind `case` are an atom.
pub proof fn lemma_case_atom(
    toks: Seq<TokenView>,
    pos: int,
    subject: ExprView,
    n1: nat,
    b: CaseBranchView,
    n2: nat,
    items: Seq<CaseBranchView>,
    m: nat,
)
    requires
        is_kind(toks, pos, TokenKind::Case),
        is_padded(toks, pos + 1, subject, n1),
        is_kind(toks, pos + 1 + n1, TokenKind::Of),
        is_branch(toks, pos + 1 + n1 + 1, b, n2),
        are_more_branches(toks, pos + 1 + n1 + 1 + n2, seq![b], items, m),
        is_kind(toks, pos + 1 + n1 + 1 + n2 + m, TokenKind::Esac),
    ensures
        is_atom(
            toks,
            pos,
            ExprView::Case { expr: Box::new(subject), branches: items },
            (1 + n1 + 1 + n2 + m + 1) as nat,
        ),
{
    reveal(is_atom);
    reveal(is_padded);
    reveal(is_branch);
    reveal(are_more_branches);
    let e = ExprView::Case { expr: Box::new(subject), branches: items };
    let p1 = pos + 1 + n1;
    let far2 = merge(g_padded(toks, pos + 1).far, g_case_branch(toks, p1 + 1).far);
    let rest = g_case_rest(toks, p1 + 1 + n2, seq![b], far2);
    assert(rest.value == items && rest.used == m);
    assert(g_case_tail(toks, pos + 1).out == Some((e, (n1 + 1 + n2 + m + 1) as nat)));
    assert(g_enclosing(toks, pos).out == Some((e, (1 + n1 + 1 + n2 + m + 1) as nat)));
}

} // verus!
