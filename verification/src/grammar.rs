//! The grammar, as functions from a token sequence to the tree it stands for.
//!
//! Each production is a function of the whole token sequence and a position.
//! It says whether the production matches at that position, which value it
//! yields and how many tokens it takes. The grammar is an ordered-choice
//! grammar: where several alternatives could match, the first one that does
//! is taken, and a repetition takes as many items as it can and never gives
//! one back.
//!
//! Beside its result every production reports the furthest position at
//! which it looked for a token and did not find it, together with the kinds
//! of token it looked for there. The report of a failed parse is built from
//! that record.
//!
//! The productions call one another, so each carries a measure that shows
//! that the calls end: the number of tokens that are left, and, for calls
//! that pass no token, a rank that falls from caller to callee.

use vstd::prelude::*;
use crate::ast::{
    AttributeFeatureView, CaseBranchView, ClassView, ExprView, FeatureView, FormalView,
    LetBindingView, MethodFeatureView, ProgramView,
};
use crate::token::{TokenKind, TokenView};

verus! {

/// The furthest position at which a token was looked for in vain, and the
/// kinds that were looked for there, in the order of the attempts. No
/// kinds means that no attempt has failed.
pub struct Far {
    pub pos: int,
    pub expected: Seq<TokenKind>,
}

/// The record of a production that looked for nothing in vain.
pub open spec fn far_none() -> Far {
    Far { pos: 0, expected: Seq::empty() }
}

/// The record of one failed attempt: one of `kinds` was looked for at `pos`.
pub open spec fn far_at(pos: int, kinds: Seq<TokenKind>) -> Far {
    Far { pos, expected: kinds }
}

/// The record of one failed attempt to find a token of kind `kind` at `pos`.
pub open spec fn miss(pos: int, kind: TokenKind) -> Far {
    far_at(pos, seq![kind])
}

/// The record of two stretches of parsing, `a` before `b`: the one that got
/// further wins, and where both stopped at the same position their kinds
/// are put together.
#[verifier::opaque]
pub open spec fn merge(a: Far, b: Far) -> Far {
    if b.expected.len() == 0 {
        a
    } else if a.expected.len() == 0 || b.pos > a.pos {
        b
    } else if b.pos == a.pos {
        Far { pos: a.pos, expected: a.expected + b.expected }
    } else {
        a
    }
}

/// What a production yields at a position: on a match the value and the
/// number of tokens taken, and in either case the record of failed attempts.
pub struct Parsed<T> {
    pub out: Option<(T, nat)>,
    pub far: Far,
}

impl<T> Parsed<T> {
    /// The same result, counted from `n` tokens earlier.
    pub open spec fn after(self, n: nat) -> Parsed<T> {
        match self.out {
            None => self,
            Some((value, used)) => Parsed { out: Some((value, used + n)), far: self.far },
        }
    }

    /// The value that the production yields, where it matches.
    pub open spec fn value(self) -> T {
        let found = self.out->0;
        found.0
    }
}

/// What a repetition yields: it always matches, possibly taking nothing.
pub struct Run<T> {
    pub value: T,
    pub used: nat,
    pub far: Far,
}

impl<T> Run<T> {
    /// The same run, counted from `n` tokens earlier.
    pub open spec fn after(self, n: nat) -> Run<T> {
        Run { value: self.value, used: self.used + n, far: self.far }
    }
}

/// The result of a production that does not match.
pub open spec fn fail<T>(far: Far) -> Parsed<T> {
    Parsed { out: None, far }
}

/// The result of a production that yields `value` and takes `used` tokens.
pub open spec fn done<T>(value: T, used: nat, far: Far) -> Parsed<T> {
    Parsed { out: Some((value, used)), far }
}

/// The number of tokens from `pos` to the end, 0 beyond it.
pub open spec fn remaining(toks: Seq<TokenView>, pos: int) -> nat {
    if pos <= toks.len() {
        (toks.len() - pos) as nat
    } else {
        0
    }
}

/// The kind of the token at `pos`.
#[verifier::opaque]
pub open spec fn kind_of(toks: Seq<TokenView>, pos: int) -> TokenKind {
    toks[pos].kind
}

/// The text of the token at `pos`.
#[verifier::opaque]
pub open spec fn text_of(toks: Seq<TokenView>, pos: int) -> Seq<char> {
    toks[pos].text
}

/// The value of the token at `pos`.
#[verifier::opaque]
pub open spec fn number_of(toks: Seq<TokenView>, pos: int) -> int {
    toks[pos].number
}

/// There is a token at `pos` and it has kind `kind`.
pub open spec fn is_kind(toks: Seq<TokenView>, pos: int, kind: TokenKind) -> bool {
    0 <= pos < toks.len() && kind_of(toks, pos) == kind
}

/// The number of comment tokens that stand in a row from `pos` on.
#[verifier::opaque]
pub open spec fn comments(toks: Seq<TokenView>, pos: int) -> nat
    decreases remaining(toks, pos),
{
    if is_kind(toks, pos, TokenKind::Comment) {
        1 + comments(toks, pos + 1)
    } else {
        0
    }
}

/// The kinds of token that name a type.
pub open spec fn type_kinds() -> Seq<TokenKind> {
    seq![TokenKind::TypeIdentifier, TokenKind::SelfType]
}

/// The type named by the token at `pos`, if it names one.
#[verifier::opaque]
pub open spec fn named_type(toks: Seq<TokenView>, pos: int) -> Option<Seq<char>> {
    if is_kind(toks, pos, TokenKind::TypeIdentifier) {
        Some(text_of(toks, pos))
    } else if is_kind(toks, pos, TokenKind::SelfType) {
        Some("SELF_TYPE"@)
    } else {
        None
    }
}

/// `id ':' TypeId`: a name and its declared type.
#[verifier::opaque]
pub open spec fn g_typed_name(toks: Seq<TokenView>, pos: int) -> Parsed<(Seq<char>, Seq<char>)> {
    if !is_kind(toks, pos, TokenKind::ObjectIdentifier) {
        fail(miss(pos, TokenKind::ObjectIdentifier))
    } else if !is_kind(toks, pos + 1, TokenKind::Colon) {
        fail(miss(pos + 1, TokenKind::Colon))
    } else {
        match named_type(toks, pos + 2) {
            None => fail(far_at(pos + 2, type_kinds())),
            Some(typ) => done((text_of(toks, pos), typ), 3, far_none()),
        }
    }
}

/// The operators of one precedence level: 1 for `* /`, 2 for `+ -`,
/// 3 for `< <= =`.
#[verifier::opaque]
pub open spec fn level_ops(level: nat) -> Seq<TokenKind> {
    if level == 1 {
        seq![TokenKind::Multiply, TokenKind::Divide]
    } else if level == 2 {
        seq![TokenKind::Plus, TokenKind::Minus]
    } else {
        seq![TokenKind::LessThan, TokenKind::LessThanOrEqual, TokenKind::Equal]
    }
}

/// The token at `pos` is an operator of the given level.
pub open spec fn is_op(toks: Seq<TokenView>, pos: int, level: nat) -> bool {
    if level == 1 {
        is_kind(toks, pos, TokenKind::Multiply) || is_kind(toks, pos, TokenKind::Divide)
    } else if level == 2 {
        is_kind(toks, pos, TokenKind::Plus) || is_kind(toks, pos, TokenKind::Minus)
    } else {
        is_kind(toks, pos, TokenKind::LessThan) || is_kind(toks, pos, TokenKind::LessThanOrEqual)
            || is_kind(toks, pos, TokenKind::Equal)
    }
}

/// The node that a binary operator builds from its operands.
#[verifier::opaque]
pub open spec fn binary_node(op: TokenKind, lhs: ExprView, rhs: ExprView) -> ExprView {
    match op {
        TokenKind::Multiply => ExprView::Times(Box::new(lhs), Box::new(rhs)),
        TokenKind::Divide => ExprView::Divide(Box::new(lhs), Box::new(rhs)),
        TokenKind::Plus => ExprView::Plus(Box::new(lhs), Box::new(rhs)),
        TokenKind::Minus => ExprView::Minus(Box::new(lhs), Box::new(rhs)),
        TokenKind::LessThan => ExprView::Lt(Box::new(lhs), Box::new(rhs)),
        TokenKind::LessThanOrEqual => ExprView::Le(Box::new(lhs), Box::new(rhs)),
        _ => ExprView::Eq(Box::new(lhs), Box::new(rhs)),
    }
}

/// The kinds of token with which an atom can start.
pub open spec fn atom_kinds() -> Seq<TokenKind> {
    seq![
        TokenKind::String,
        TokenKind::Integer,
        TokenKind::True,
        TokenKind::False,
        TokenKind::Isvoid,
        TokenKind::SelfLit,
        TokenKind::ObjectIdentifier,
        TokenKind::Let,
        TokenKind::If,
        TokenKind::While,
        TokenKind::Case,
        TokenKind::New,
        TokenKind::LeftBrace,
        TokenKind::LeftParen,
    ]
}

/// `Expr`: an expression, which is a chain of comparisons.
pub open spec fn g_expr(toks: Seq<TokenView>, pos: int) -> Parsed<ExprView>
    decreases remaining(toks, pos), 22int,
{
    g_binary(toks, pos, 3)
}

/// An expression between comments.
pub open spec fn g_padded(toks: Seq<TokenView>, pos: int) -> Parsed<ExprView>
    decreases remaining(toks, pos), 23int,
{
    let c = comments(toks, pos);
    let e = g_expr(toks, pos + c);
    match e.out {
        None => fail(e.far),
        Some((v, n)) => done(v, c + n + comments(toks, pos + c + n), e.far),
    }
}

/// A chain of operands joined by the operators of `level`, grouped to the
/// left. An operand is a chain of the next tighter level; at level 0 it is
/// a unary expression. Comments may stand on either side of an operator.
pub open spec fn g_binary(toks: Seq<TokenView>, pos: int, level: nat) -> Parsed<ExprView>
    decreases remaining(toks, pos), 15 + 2 * level,
{
    if level == 0 {
        g_unary(toks, pos)
    } else {
        let first = g_binary(toks, pos, (level - 1) as nat);
        match first.out {
            None => fail(first.far),
            Some((lhs, n)) => {
                let rest = g_binary_rest(toks, pos + n, level, lhs, first.far);
                done(rest.value, n + rest.used, rest.far)
            },
        }
    }
}

/// The rest of a chain whose operands so far make up `lhs`. An operator
/// that no operand follows is not taken.
pub open spec fn g_binary_rest(
    toks: Seq<TokenView>,
    pos: int,
    level: nat,
    lhs: ExprView,
    far: Far,
) -> Run<ExprView>
    decreases remaining(toks, pos), 0int,
{
    let c1 = comments(toks, pos);
    let p = pos + c1;
    if level >= 1 && is_op(toks, p, level) {
        let c2 = comments(toks, p + 1);
        let rhs = g_binary(toks, p + 1 + c2, (level - 1) as nat);
        match rhs.out {
            None => Run { value: lhs, used: 0, far: merge(far, rhs.far) },
            Some((r, n)) => g_binary_rest(
                toks,
                p + 1 + c2 + n,
                level,
                binary_node(kind_of(toks, p), lhs, r),
                merge(far, rhs.far),
            ).after(c1 + 1 + c2 + n),
        }
    } else {
        Run { value: lhs, used: 0, far: merge(far, far_at(p, level_ops(level))) }
    }
}

/// Any number of `not` and `~`, then a postfix expression. Both operators
/// build a `Not` node, the outermost operator the outermost node.
pub open spec fn g_unary(toks: Seq<TokenView>, pos: int) -> Parsed<ExprView>
    decreases remaining(toks, pos), 14int,
{
    if is_kind(toks, pos, TokenKind::Not) || is_kind(toks, pos, TokenKind::Tilde) {
        let inner = g_unary(toks, pos + 1);
        match inner.out {
            None => fail(inner.far),
            Some((e, n)) => done(ExprView::Not(Box::new(e)), 1 + n, inner.far),
        }
    } else {
        let inner = g_postfix(toks, pos);
        Parsed {
            out: inner.out,
            far: merge(far_at(pos, seq![TokenKind::Not, TokenKind::Tilde]), inner.far),
        }
    }
}

/// An atom and the dispatches that follow it.
pub open spec fn g_postfix(toks: Seq<TokenView>, pos: int) -> Parsed<ExprView>
    decreases remaining(toks, pos), 13int,
{
    let first = g_atom(toks, pos);
    match first.out {
        None => fail(first.far),
        Some((e, n)) => {
            let rest = g_postfix_rest(toks, pos + n, e, first.far);
            done(rest.value, n + rest.used, rest.far)
        },
    }
}

/// The dispatches that follow the receiver `recv`: `'.' id '(' args ')'`
/// or `'@' TypeId '.' id '(' args ')'`, any number of times. A dispatch
/// that is not complete is not taken.
pub open spec fn g_postfix_rest(toks: Seq<TokenView>, pos: int, recv: ExprView, far: Far) -> Run<
    ExprView,
>
    decreases remaining(toks, pos), 0int,
{
    if is_kind(toks, pos, TokenKind::Dot) {
        let call = g_method_call(toks, pos + 1);
        match call.out {
            None => Run { value: recv, used: 0, far: merge(far, call.far) },
            Some(((method, args), n)) => g_postfix_rest(
                toks,
                pos + 1 + n,
                ExprView::Dispatch { expr: Box::new(recv), static_type: None, method, args },
                merge(far, call.far),
            ).after(1 + n),
        }
    } else if is_kind(toks, pos, TokenKind::TypeId) {
        let call = g_static_call(toks, pos + 1);
        match call.out {
            None => Run { value: recv, used: 0, far: merge(far, call.far) },
            Some(((typ, method, args), n)) => g_postfix_rest(
                toks,
                pos + 1 + n,
                ExprView::Dispatch { expr: Box::new(recv), static_type: Some(typ), method, args },
                merge(far, call.far),
            ).after(1 + n),
        }
    } else {
        Run {
            value: recv,
            used: 0,
            far: merge(far, far_at(pos, seq![TokenKind::Dot, TokenKind::TypeId])),
        }
    }
}

/// `id '(' args ')'`: the name of a method and the arguments of its call.
pub open spec fn g_method_call(toks: Seq<TokenView>, pos: int) -> Parsed<
    (Seq<char>, Seq<ExprView>),
>
    decreases remaining(toks, pos), 25int,
{
    if !is_kind(toks, pos, TokenKind::ObjectIdentifier) {
        fail(miss(pos, TokenKind::ObjectIdentifier))
    } else {
        let call = g_call_tail(toks, pos + 1);
        match call.out {
            None => fail(call.far),
            Some((args, n)) => done((text_of(toks, pos), args), 1 + n, call.far),
        }
    }
}

/// `TypeId '.' id '(' args ')'`: the type whose method is called, the name
/// of the method and the arguments of the call.
pub open spec fn g_static_call(toks: Seq<TokenView>, pos: int) -> Parsed<
    (Seq<char>, Seq<char>, Seq<ExprView>),
>
    decreases remaining(toks, pos), 26int,
{
    match named_type(toks, pos) {
        None => fail(far_at(pos, type_kinds())),
        Some(typ) => {
            if !is_kind(toks, pos + 1, TokenKind::Dot) {
                fail(miss(pos + 1, TokenKind::Dot))
            } else {
                let call = g_method_call(toks, pos + 2);
                match call.out {
                    None => fail(call.far),
                    Some(((method, args), n)) => done((typ, method, args), 2 + n, call.far),
                }
            }
        },
    }
}

/// `'(' args ')'`: the arguments of a call, after the name of the method.
pub open spec fn g_call_tail(toks: Seq<TokenView>, pos: int) -> Parsed<Seq<ExprView>>
    decreases remaining(toks, pos), 24int,
{
    if !is_kind(toks, pos, TokenKind::LeftParen) {
        fail(miss(pos, TokenKind::LeftParen))
    } else {
        let args = g_args(toks, pos + 1);
        if is_kind(toks, pos + 1 + args.used, TokenKind::RightParen) {
            done(args.value, args.used + 2, args.far)
        } else {
            fail(merge(args.far, miss(pos + 1 + args.used, TokenKind::RightParen)))
        }
    }
}

/// Expressions separated by commas: none, or one or more with an optional
/// comma after the last.
pub open spec fn g_args(toks: Seq<TokenView>, pos: int) -> Run<Seq<ExprView>>
    decreases remaining(toks, pos), 23int,
{
    let first = g_expr(toks, pos);
    match first.out {
        None => Run { value: Seq::empty(), used: 0, far: first.far },
        Some((e, n)) => g_args_rest(toks, pos + n, seq![e], first.far).after(n),
    }
}

/// The arguments that follow those in `acc`: `(',' Expr)* (',')?`.
pub open spec fn g_args_rest(toks: Seq<TokenView>, pos: int, acc: Seq<ExprView>, far: Far) -> Run<
    Seq<ExprView>,
>
    decreases remaining(toks, pos), 0int,
{
    if is_kind(toks, pos, TokenKind::Comma) {
        let next = g_expr(toks, pos + 1);
        match next.out {
            None => Run { value: acc, used: 1, far: merge(far, next.far) },
            Some((e, n)) => g_args_rest(toks, pos + 1 + n, acc.push(e), merge(far, next.far)).after(
                1 + n,
            ),
        }
    } else {
        Run { value: acc, used: 0, far: merge(far, miss(pos, TokenKind::Comma)) }
    }
}

/// An atom between comments.
pub open spec fn g_atom(toks: Seq<TokenView>, pos: int) -> Parsed<ExprView>
    decreases remaining(toks, pos), 12int,
{
    let c = comments(toks, pos);
    let e = g_atom_core(toks, pos + c);
    match e.out {
        None => fail(e.far),
        Some((v, n)) => done(v, c + n + comments(toks, pos + c + n), e.far),
    }
}

/// An atom: a literal, `isvoid Expr`, `self`, an assignment, a `let`, an
/// `if`, a `while`, a `case`, a call, an identifier, `new TypeId`, a block
/// or an expression in parentheses. The alternatives are tried in this
/// order. All but the assignment, the call and the identifier begin with a
/// token of their own, so the order decides between those three only.
pub open spec fn g_atom_core(toks: Seq<TokenView>, pos: int) -> Parsed<ExprView>
    decreases remaining(toks, pos), 11int,
{
    if is_kind(toks, pos, TokenKind::String) {
        done(ExprView::String(text_of(toks, pos)), 1, far_none())
    } else if is_kind(toks, pos, TokenKind::Integer) {
        done(ExprView::Integer(number_of(toks, pos)), 1, far_none())
    } else if is_kind(toks, pos, TokenKind::True) {
        done(ExprView::True, 1, far_none())
    } else if is_kind(toks, pos, TokenKind::False) {
        done(ExprView::False, 1, far_none())
    } else if is_kind(toks, pos, TokenKind::Isvoid) {
        let inner = g_expr(toks, pos + 1);
        match inner.out {
            None => fail(inner.far),
            Some((e, n)) => done(ExprView::IsVoid(Box::new(e)), 1 + n, inner.far),
        }
    } else if is_kind(toks, pos, TokenKind::SelfLit) {
        done(ExprView::Id("self"@), 1, far_none())
    } else if is_kind(toks, pos, TokenKind::ObjectIdentifier) {
        let named = g_named_tail(toks, pos + 1, text_of(toks, pos));
        done(named.value, 1 + named.used, named.far)
    } else if is_kind(toks, pos, TokenKind::New) {
        match named_type(toks, pos + 1) {
            None => fail(far_at(pos + 1, type_kinds())),
            Some(t) => done(ExprView::New(t), 2, far_none()),
        }
    } else {
        g_enclosing(toks, pos)
    }
}

/// The atoms that enclose expressions between tokens of their own: a
/// `let`, an `if`, a `while`, a `case`, a block and an expression in
/// parentheses.
pub open spec fn g_enclosing(toks: Seq<TokenView>, pos: int) -> Parsed<ExprView>
    decreases remaining(toks, pos), 10int,
{
    if is_kind(toks, pos, TokenKind::Let) {
        g_let_tail(toks, pos + 1).after(1)
    } else if is_kind(toks, pos, TokenKind::If) {
        g_if_tail(toks, pos + 1).after(1)
    } else if is_kind(toks, pos, TokenKind::While) {
        g_while_tail(toks, pos + 1).after(1)
    } else if is_kind(toks, pos, TokenKind::Case) {
        g_case_tail(toks, pos + 1).after(1)
    } else if is_kind(toks, pos, TokenKind::LeftBrace) {
        g_block_tail(toks, pos + 1).after(1)
    } else if is_kind(toks, pos, TokenKind::LeftParen) {
        let inner = g_expr(toks, pos + 1);
        match inner.out {
            None => fail(inner.far),
            Some((e, n)) => {
                if is_kind(toks, pos + 1 + n, TokenKind::RightParen) {
                    done(e, n + 2, inner.far)
                } else {
                    fail(merge(inner.far, miss(pos + 1 + n, TokenKind::RightParen)))
                }
            },
        }
    } else {
        fail(far_at(pos, atom_kinds()))
    }
}

/// What follows the identifier `name` at the start of an atom:
/// `'<-' Expr` makes an assignment, else `'(' args ')'` makes a call of a
/// method of the current object, else the identifier stands alone.
pub open spec fn g_named_tail(toks: Seq<TokenView>, pos: int, name: Seq<char>) -> Run<ExprView>
    decreases remaining(toks, pos), 25int,
{
    let assigned = if is_kind(toks, pos, TokenKind::Assign) {
        g_expr(toks, pos + 1)
    } else {
        fail(miss(pos, TokenKind::Assign))
    };
    match assigned.out {
        Some((e, n)) => Run {
            value: ExprView::Assign { name, expr: Box::new(e) },
            used: 1 + n,
            far: assigned.far,
        },
        None => {
            let call = g_call_tail(toks, pos);
            match call.out {
                Some((args, n)) => Run {
                    value: ExprView::FuncCall { name, args },
                    used: n,
                    far: merge(assigned.far, call.far),
                },
                None => Run {
                    value: ExprView::Id(name),
                    used: 0,
                    far: merge(assigned.far, call.far),
                },
            }
        },
    }
}

/// `id ':' TypeId ('<-' Expr)?`: a declaration with an optional initial
/// value. An arrow that no expression follows is not taken.
pub open spec fn g_declaration(toks: Seq<TokenView>, pos: int) -> Parsed<
    (Seq<char>, Seq<char>, Option<ExprView>),
>
    decreases remaining(toks, pos), 1int,
{
    let head = g_typed_name(toks, pos);
    match head.out {
        None => fail(head.far),
        Some(((name, typ), _)) => {
            if is_kind(toks, pos + 3, TokenKind::Assign) {
                let init = g_expr(toks, pos + 4);
                match init.out {
                    None => done((name, typ, None), 3, init.far),
                    Some((e, n)) => done((name, typ, Some(e)), 4 + n, init.far),
                }
            } else {
                done((name, typ, None), 3, miss(pos + 3, TokenKind::Assign))
            }
        },
    }
}

/// The binding of a `let` that a declaration stands for.
pub open spec fn as_binding(d: (Seq<char>, Seq<char>, Option<ExprView>)) -> LetBindingView {
    LetBindingView { name: d.0, typ: d.1, init: d.2 }
}

/// `LetBinding (',' LetBinding)* 'in' Expr`: a `let` after its keyword. The
/// body may stand between comments.
pub open spec fn g_let_tail(toks: Seq<TokenView>, pos: int) -> Parsed<ExprView>
    decreases remaining(toks, pos), 24int,
{
    let first = g_declaration(toks, pos);
    match first.out {
        None => fail(first.far),
        Some((d, n)) => {
            let rest = g_let_rest(toks, pos + n, seq![as_binding(d)], first.far);
            let p = pos + n + rest.used;
            if !is_kind(toks, p, TokenKind::In) {
                fail(merge(rest.far, miss(p, TokenKind::In)))
            } else {
                let body = g_padded(toks, p + 1);
                match body.out {
                    None => fail(merge(rest.far, body.far)),
                    Some((e, m)) => done(
                        ExprView::Let { bindings: rest.value, body: Box::new(e) },
                        n + rest.used + 1 + m,
                        merge(rest.far, body.far),
                    ),
                }
            }
        },
    }
}

/// The bindings that follow those in `acc`: `(',' LetBinding)*`. A comma
/// that no binding follows is not taken.
pub open spec fn g_let_rest(
    toks: Seq<TokenView>,
    pos: int,
    acc: Seq<LetBindingView>,
    far: Far,
) -> Run<Seq<LetBindingView>>
    decreases remaining(toks, pos), 0int,
{
    if is_kind(toks, pos, TokenKind::Comma) {
        let next = g_declaration(toks, pos + 1);
        match next.out {
            None => Run { value: acc, used: 0, far: merge(far, next.far) },
            Some((d, n)) => g_let_rest(
                toks,
                pos + 1 + n,
                acc.push(as_binding(d)),
                merge(far, next.far),
            ).after(1 + n),
        }
    } else {
        Run { value: acc, used: 0, far: merge(far, miss(pos, TokenKind::Comma)) }
    }
}

/// `Expr 'then' Expr 'else' Expr 'fi'`: an `if` after its keyword. Each of
/// the three expressions may stand between comments.
pub open spec fn g_if_tail(toks: Seq<TokenView>, pos: int) -> Parsed<ExprView>
    decreases remaining(toks, pos), 25int,
{
    let cond = g_padded(toks, pos);
    match cond.out {
        None => fail(cond.far),
        Some((c, n1)) => {
            let p1 = pos + n1;
            if !is_kind(toks, p1, TokenKind::Then) {
                fail(merge(cond.far, miss(p1, TokenKind::Then)))
            } else {
                let branches = g_if_branches(toks, p1 + 1);
                let far = merge(cond.far, branches.far);
                match branches.out {
                    None => fail(far),
                    Some(((t, e), n2)) => done(
                        ExprView::If {
                            cond: Box::new(c),
                            then_branch: Box::new(t),
                            else_branch: Box::new(e),
                        },
                        n1 + 1 + n2,
                        far,
                    ),
                }
            }
        },
    }
}

/// `Expr 'else' Expr 'fi'`: the two branches of an `if`.
pub open spec fn g_if_branches(toks: Seq<TokenView>, pos: int) -> Parsed<(ExprView, ExprView)>
    decreases remaining(toks, pos), 24int,
{
    let yes = g_padded(toks, pos);
    match yes.out {
        None => fail(yes.far),
        Some((t, n1)) => {
            let p1 = pos + n1;
            if !is_kind(toks, p1, TokenKind::Else) {
                fail(merge(yes.far, miss(p1, TokenKind::Else)))
            } else {
                let no = g_padded(toks, p1 + 1);
                let far = merge(yes.far, no.far);
                match no.out {
                    None => fail(far),
                    Some((e, n2)) => {
                        let p2 = p1 + 1 + n2;
                        if !is_kind(toks, p2, TokenKind::Fi) {
                            fail(merge(far, miss(p2, TokenKind::Fi)))
                        } else {
                            done((t, e), n1 + 1 + n2 + 1, far)
                        }
                    },
                }
            }
        },
    }
}

/// `Expr 'loop' Expr 'pool'`: a `while` after its keyword. Both
/// expressions may stand between comments.
pub open spec fn g_while_tail(toks: Seq<TokenView>, pos: int) -> Parsed<ExprView>
    decreases remaining(toks, pos), 24int,
{
    let cond = g_padded(toks, pos);
    match cond.out {
        None => fail(cond.far),
        Some((c, n1)) => {
            let p1 = pos + n1;
            if !is_kind(toks, p1, TokenKind::Loop) {
                fail(merge(cond.far, miss(p1, TokenKind::Loop)))
            } else {
                let body = g_padded(toks, p1 + 1);
                let far2 = merge(cond.far, body.far);
                match body.out {
                    None => fail(far2),
                    Some((b, n2)) => {
                        let p2 = p1 + 1 + n2;
                        if !is_kind(toks, p2, TokenKind::Pool) {
                            fail(merge(far2, miss(p2, TokenKind::Pool)))
                        } else {
                            done(
                                ExprView::While { cond: Box::new(c), body: Box::new(b) },
                                n1 + 1 + n2 + 1,
                                far2,
                            )
                        }
                    },
                }
            }
        },
    }
}

/// `id ':' TypeId '=>' Expr`: one branch of a `case`.
pub open spec fn g_case_branch(toks: Seq<TokenView>, pos: int) -> Parsed<CaseBranchView>
    decreases remaining(toks, pos), 1int,
{
    let head = g_typed_name(toks, pos);
    match head.out {
        None => fail(head.far),
        Some(((name, typ), _)) => {
            if !is_kind(toks, pos + 3, TokenKind::DoubleArrow) {
                fail(miss(pos + 3, TokenKind::DoubleArrow))
            } else {
                let body = g_expr(toks, pos + 4);
                match body.out {
                    None => fail(body.far),
                    Some((e, n)) => done(CaseBranchView { name, typ, expr: e }, 4 + n, body.far),
                }
            }
        },
    }
}

/// `Expr 'of' CaseBranch (';' CaseBranch)* (';')? 'esac'`: a `case` after
/// its keyword. The expression may stand between comments.
pub open spec fn g_case_tail(toks: Seq<TokenView>, pos: int) -> Parsed<ExprView>
    decreases remaining(toks, pos), 24int,
{
    let subject = g_padded(toks, pos);
    match subject.out {
        None => fail(subject.far),
        Some((s, n1)) => {
            let p1 = pos + n1;
            if !is_kind(toks, p1, TokenKind::Of) {
                fail(merge(subject.far, miss(p1, TokenKind::Of)))
            } else {
                let first = g_case_branch(toks, p1 + 1);
                let far2 = merge(subject.far, first.far);
                match first.out {
                    None => fail(far2),
                    Some((b, n2)) => {
                        let rest = g_case_rest(toks, p1 + 1 + n2, seq![b], far2);
                        let p2 = p1 + 1 + n2 + rest.used;
                        if !is_kind(toks, p2, TokenKind::Esac) {
                            fail(merge(rest.far, miss(p2, TokenKind::Esac)))
                        } else {
                            done(
                                ExprView::Case { expr: Box::new(s), branches: rest.value },
                                n1 + 1 + n2 + rest.used + 1,
                                rest.far,
                            )
                        }
                    },
                }
            }
        },
    }
}

/// The branches that follow those in `acc`: `(';' CaseBranch)* (';')?`.
pub open spec fn g_case_rest(
    toks: Seq<TokenView>,
    pos: int,
    acc: Seq<CaseBranchView>,
    far: Far,
) -> Run<Seq<CaseBranchView>>
    decreases remaining(toks, pos), 0int,
{
    if is_kind(toks, pos, TokenKind::Semicolon) {
        let next = g_case_branch(toks, pos + 1);
        match next.out {
            None => Run { value: acc, used: 1, far: merge(far, next.far) },
            Some((b, n)) => g_case_rest(toks, pos + 1 + n, acc.push(b), merge(far, next.far)).after(
                1 + n,
            ),
        }
    } else {
        Run { value: acc, used: 0, far: merge(far, miss(pos, TokenKind::Semicolon)) }
    }
}

/// `Expr (('.'|';') Expr)* (('.'|';'))? '}'`: a block after its opening
/// brace. Each expression may stand between comments, and comments may
/// stand before the closing brace.
pub open spec fn g_block_tail(toks: Seq<TokenView>, pos: int) -> Parsed<ExprView>
    decreases remaining(toks, pos), 24int,
{
    let first = g_padded(toks, pos);
    match first.out {
        None => fail(first.far),
        Some((e, n)) => {
            let rest = g_block_rest(toks, pos + n, seq![e], first.far);
            let p = pos + n + rest.used;
            let c = comments(toks, p);
            if !is_kind(toks, p + c, TokenKind::RightBrace) {
                fail(merge(rest.far, miss(p + c, TokenKind::RightBrace)))
            } else {
                done(ExprView::Block(rest.value), n + rest.used + c + 1, rest.far)
            }
        },
    }
}

/// The expressions that follow those in `acc`:
/// `(('.'|';') Expr)* (('.'|';'))?`.
pub open spec fn g_block_rest(toks: Seq<TokenView>, pos: int, acc: Seq<ExprView>, far: Far) -> Run<
    Seq<ExprView>,
>
    decreases remaining(toks, pos), 0int,
{
    if is_kind(toks, pos, TokenKind::Dot) || is_kind(toks, pos, TokenKind::Semicolon) {
        let next = g_padded(toks, pos + 1);
        match next.out {
            None => Run { value: acc, used: 1, far: merge(far, next.far) },
            Some((e, n)) => g_block_rest(toks, pos + 1 + n, acc.push(e), merge(far, next.far)).after(
                1 + n,
            ),
        }
    } else {
        Run {
            value: acc,
            used: 0,
            far: merge(far, far_at(pos, seq![TokenKind::Dot, TokenKind::Semicolon])),
        }
    }
}

/// The formal that a name and its type stand for.
pub open spec fn as_formal(f: (Seq<char>, Seq<char>)) -> FormalView {
    FormalView { name: f.0, typ: f.1 }
}

/// The attribute that a declaration stands for.
pub open spec fn as_attribute(d: (Seq<char>, Seq<char>, Option<ExprView>)) -> AttributeFeatureView {
    AttributeFeatureView { name: d.0, attr_type: d.1, init: d.2 }
}

/// `(Formal (',' Formal)*)?`: the formals of a method, each `id ':' TypeId`.
/// A comma that no formal follows is not taken.
pub open spec fn g_formals(toks: Seq<TokenView>, pos: int) -> Run<Seq<FormalView>> {
    let first = g_typed_name(toks, pos);
    match first.out {
        None => Run { value: Seq::empty(), used: 0, far: first.far },
        Some((f, _)) => g_formals_rest(toks, pos + 3, seq![as_formal(f)], first.far).after(3),
    }
}

/// The formals that follow those in `acc`: `(',' Formal)*`.
pub open spec fn g_formals_rest(
    toks: Seq<TokenView>,
    pos: int,
    acc: Seq<FormalView>,
    far: Far,
) -> Run<Seq<FormalView>>
    decreases remaining(toks, pos),
{
    if is_kind(toks, pos, TokenKind::Comma) {
        let next = g_typed_name(toks, pos + 1);
        match next.out {
            None => Run { value: acc, used: 0, far: merge(far, next.far) },
            Some((f, _)) => g_formals_rest(
                toks,
                pos + 4,
                acc.push(as_formal(f)),
                merge(far, next.far),
            ).after(4),
        }
    } else {
        Run { value: acc, used: 0, far: merge(far, miss(pos, TokenKind::Comma)) }
    }
}

/// `id '(' formals ')' ':' TypeId '{' Expr '}'`: a method. Comments may
/// stand before the name and between the return type and the body.
#[verifier::opaque]
pub open spec fn g_method(toks: Seq<TokenView>, pos: int) -> Parsed<MethodFeatureView> {
    let c1 = comments(toks, pos);
    let p = pos + c1;
    if !is_kind(toks, p, TokenKind::ObjectIdentifier) {
        fail(miss(p, TokenKind::ObjectIdentifier))
    } else if !is_kind(toks, p + 1, TokenKind::LeftParen) {
        fail(miss(p + 1, TokenKind::LeftParen))
    } else {
        let formals = g_formals(toks, p + 2);
        let q = p + 2 + formals.used;
        if !is_kind(toks, q, TokenKind::RightParen) {
            fail(merge(formals.far, miss(q, TokenKind::RightParen)))
        } else if !is_kind(toks, q + 1, TokenKind::Colon) {
            fail(merge(formals.far, miss(q + 1, TokenKind::Colon)))
        } else {
            match named_type(toks, q + 2) {
                None => fail(merge(formals.far, far_at(q + 2, type_kinds()))),
                Some(return_type) => {
                    let c2 = comments(toks, q + 3);
                    let r = q + 3 + c2;
                    if !is_kind(toks, r, TokenKind::LeftBrace) {
                        fail(merge(formals.far, miss(r, TokenKind::LeftBrace)))
                    } else {
                        let body = g_expr(toks, r + 1);
                        let far2 = merge(formals.far, body.far);
                        match body.out {
                            None => fail(far2),
                            Some((e, n)) => {
                                if !is_kind(toks, r + 1 + n, TokenKind::RightBrace) {
                                    fail(merge(far2, miss(r + 1 + n, TokenKind::RightBrace)))
                                } else {
                                    done(
                                        MethodFeatureView {
                                            name: text_of(toks, p),
                                            formals: formals.value,
                                            return_type,
                                            body: e,
                                        },
                                        c1 + 2 + formals.used + 3 + c2 + 1 + n + 1,
                                        far2,
                                    )
                                }
                            },
                        }
                    }
                },
            }
        }
    }
}

/// A feature without the semicolon that closes it: a method, or else an
/// attribute `id ':' TypeId ('<-' Expr)?`.
#[verifier::opaque]
pub open spec fn g_feature(toks: Seq<TokenView>, pos: int) -> Parsed<FeatureView> {
    let method = g_method(toks, pos);
    match method.out {
        Some((m, n)) => done(FeatureView::Method(m), n, method.far),
        None => {
            let attribute = g_declaration(toks, pos);
            let far = merge(method.far, attribute.far);
            match attribute.out {
                None => fail(far),
                Some((d, n)) => done(FeatureView::Attribute(as_attribute(d)), n, far),
            }
        },
    }
}

/// `(Feature ';')*`: the features of a class, added to `acc`. A feature
/// that no semicolon follows is not taken.
pub open spec fn g_features(toks: Seq<TokenView>, pos: int, acc: Seq<FeatureView>, far: Far) -> Run<
    Seq<FeatureView>,
>
    decreases remaining(toks, pos),
{
    let next = g_feature(toks, pos);
    let far2 = merge(far, next.far);
    match next.out {
        None => Run { value: acc, used: 0, far: far2 },
        Some((f, n)) => {
            if is_kind(toks, pos + n, TokenKind::Semicolon) {
                g_features(toks, pos + n + 1, acc.push(f), far2).after(n + 1)
            } else {
                Run { value: acc, used: 0, far: merge(far2, miss(pos + n, TokenKind::Semicolon)) }
            }
        },
    }
}

/// `TypeId ('inherits' TypeId)? '{' (Feature ';')* '}' ';'`: a class after
/// its keyword.
#[verifier::opaque]
pub open spec fn g_class_tail(toks: Seq<TokenView>, pos: int) -> Parsed<ClassView> {
    match named_type(toks, pos) {
        None => fail(far_at(pos, type_kinds())),
        Some(name) => {
            let parent = g_parent(toks, pos + 1);
            let p = pos + 1 + parent.used;
            if !is_kind(toks, p, TokenKind::LeftBrace) {
                fail(merge(parent.far, miss(p, TokenKind::LeftBrace)))
            } else {
                let features = g_features(toks, p + 1, Seq::empty(), parent.far);
                let q = p + 1 + features.used;
                if !is_kind(toks, q, TokenKind::RightBrace) {
                    fail(merge(features.far, miss(q, TokenKind::RightBrace)))
                } else if !is_kind(toks, q + 1, TokenKind::Semicolon) {
                    fail(merge(features.far, miss(q + 1, TokenKind::Semicolon)))
                } else {
                    done(
                        ClassView { name, parent: parent.value, features: features.value },
                        1 + parent.used + 1 + features.used + 2,
                        features.far,
                    )
                }
            }
        },
    }
}

/// `('inherits' TypeId)?`: the parent of a class, if one is named.
#[verifier::opaque]
pub open spec fn g_parent(toks: Seq<TokenView>, pos: int) -> Run<Option<Seq<char>>> {
    if is_kind(toks, pos, TokenKind::Inherits) {
        match named_type(toks, pos + 1) {
            Some(t) => Run { value: Some(t), used: 2, far: far_none() },
            None => Run { value: None, used: 0, far: far_at(pos + 1, type_kinds()) },
        }
    } else {
        Run { value: None, used: 0, far: miss(pos, TokenKind::Inherits) }
    }
}

/// `Class*`: the classes from `pos` on, added to `acc`. Comments may stand
/// before each class and after the last.
pub open spec fn g_classes(toks: Seq<TokenView>, pos: int, acc: Seq<ClassView>, far: Far) -> Run<
    Seq<ClassView>,
>
    decreases remaining(toks, pos),
{
    let c = comments(toks, pos);
    let p = pos + c;
    if is_kind(toks, p, TokenKind::Class) {
        let class = g_class_tail(toks, p + 1);
        match class.out {
            None => Run { value: acc, used: c, far: merge(far, class.far) },
            Some((cl, n)) => g_classes(toks, p + 1 + n, acc.push(cl), merge(far, class.far)).after(
                c + 1 + n,
            ),
        }
    } else {
        Run { value: acc, used: c, far: merge(far, miss(p, TokenKind::Class)) }
    }
}

/// The expression that the whole token sequence stands for, or, where it
/// stands for none, the record of the furthest failed attempts.
pub open spec fn g_expression(toks: Seq<TokenView>) -> Result<ExprView, Far> {
    let e = g_padded(toks, 0);
    match e.out {
        None => Err(e.far),
        Some((v, n)) => {
            if n == toks.len() {
                Ok(v)
            } else {
                Err(merge(e.far, miss(n as int, TokenKind::EndOfInput)))
            }
        },
    }
}

/// The program that the whole token sequence stands for, or, where it
/// stands for none, the record of the furthest failed attempts.
pub open spec fn g_program(toks: Seq<TokenView>) -> Result<ProgramView, Far> {
    let classes = g_classes(toks, 0, Seq::empty(), far_none());
    if classes.used == toks.len() {
        Ok(ProgramView { classes: classes.value })
    } else {
        Err(merge(classes.far, miss(classes.used as int, TokenKind::EndOfInput)))
    }
}

} // verus!
