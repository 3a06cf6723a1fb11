//! The recursive-descent parser: one function for each production of the
//! grammar, each proved to yield what the grammar says.

use vstd::prelude::*;
use crate::ast::{
    lemma_view_of_expr, lemma_views_empty, lemma_views_push, opt_expr_view, views, CaseBranch, Expr,
    ExprView, LetBinding,
};
use crate::grammar::{
    as_binding, atom_kinds, binary_node, comments, far_at, far_none, g_args, g_args_rest, g_atom,
    g_atom_core, g_binary, g_binary_rest, g_block_rest, g_block_tail, g_call_tail, g_case_branch,
    g_case_rest, g_case_tail, g_declaration, g_enclosing, g_expr, g_if_branches, g_if_tail,
    g_let_rest, g_let_tail, g_method_call, g_named_tail, g_padded, g_postfix, g_postfix_rest,
    g_static_call, g_typed_name, g_unary, g_while_tail, is_kind, is_op, kind_of, level_ops, merge,
    miss, named_type, number_of, remaining, text_of, type_kinds, Far, Parsed, Run,
};
use crate::token::{SpannedToken, Token, TokenKind, TokenView};

verus! {

/// The views of the tokens of a stream, without their spans.
pub open spec fn token_views(tokens: Seq<SpannedToken>) -> Seq<TokenView> {
    Seq::new(tokens.len(), |i: int| tokens[i].token@)
}

/// The furthest position at which the parser looked for a token in vain,
/// and the kinds it looked for there.
pub struct Furthest {
    pub pos: usize,
    pub expected: Vec<TokenKind>,
}

impl View for Furthest {
    type V = Far;

    open spec fn view(&self) -> Far {
        Far { pos: self.pos as int, expected: self.expected@ }
    }
}

/// What a parsing function found: on a match the value and the number of
/// tokens it took.
pub struct Outcome<T> {
    pub out: Option<(T, usize)>,
    pub far: Furthest,
}

/// What a repetition found: the value and the number of tokens it took.
pub struct RunOut<T> {
    pub value: T,
    pub used: usize,
    pub far: Furthest,
}

/// The outcome `o` is what the grammar yields, `view` taking the value
/// that was built to the value that the grammar speaks of.
pub open spec fn agrees<T, V>(o: Outcome<T>, p: Parsed<V>, view: spec_fn(T) -> V) -> bool {
    &&& o.far@ == p.far
    &&& match o.out {
        Some((v, used)) => p.out == Some((view(v), used as nat)),
        None => p.out is None,
    }
}

/// The outcome `r` of a repetition is what the grammar yields.
pub open spec fn run_agrees<T, V>(r: RunOut<T>, p: Run<V>, view: spec_fn(T) -> V) -> bool {
    &&& r.far@ == p.far
    &&& p.used == r.used
    &&& p.value == view(r.value)
}

/// The record of a stretch of parsing in which no attempt failed.
pub(crate) fn furthest_none() -> (f: Furthest)
    ensures
        f@ == far_none(),
{
    Furthest { pos: 0, expected: Vec::new() }
}

/// The record of one failed attempt to find one of `kinds` at `pos`.
pub(crate) fn furthest_at(pos: usize, kinds: Vec<TokenKind>) -> (f: Furthest)
    ensures
        f@ == far_at(pos as int, kinds@),
{
    Furthest { pos, expected: kinds }
}

/// The record of one failed attempt to find a token of kind `kind` at `pos`.
pub(crate) fn furthest_miss(pos: usize, kind: TokenKind) -> (f: Furthest)
    ensures
        f@ == miss(pos as int, kind),
{
    let kinds = vec![kind];
    assert(kinds@ =~= seq![kind]);
    Furthest { pos, expected: kinds }
}

/// Puts the records of two stretches of parsing together, `a` before `b`.
pub(crate) fn merge_far(a: Furthest, b: Furthest) -> (f: Furthest)
    ensures
        f@ == merge(a@, b@),
{
    proof {
        reveal(merge);
    }
    if b.expected.len() == 0 {
        a
    } else if a.expected.len() == 0 || b.pos > a.pos {
        b
    } else if b.pos == a.pos {
        let mut a = a;
        let mut b = b;
        a.expected.append(&mut b.expected);
        a
    } else {
        a
    }
}

/// Whether a token of kind `kind` stands at `pos`.
pub(crate) fn has_kind(toks: &Vec<SpannedToken>, pos: usize, kind: TokenKind) -> (r: bool)
    ensures
        r == is_kind(token_views(toks@), pos as int, kind),
        r ==> pos < toks.len(),
{
    proof {
        reveal(kind_of);
    }
    pos < toks.len() && toks[pos].token.kind() == kind
}

/// The kind of the token at `pos`.
pub(crate) fn kind_at(toks: &Vec<SpannedToken>, pos: usize) -> (k: TokenKind)
    requires
        pos < toks.len(),
    ensures
        k == kind_of(token_views(toks@), pos as int),
{
    proof {
        reveal(kind_of);
    }
    toks[pos].token.kind()
}

/// The number of comment tokens that stand in a row from `pos` on.
pub(crate) fn count_comments(toks: &Vec<SpannedToken>, pos: usize) -> (n: usize)
    requires
        pos <= toks.len(),
    ensures
        n == comments(token_views(toks@), pos as int),
        pos + n <= toks.len(),
{
    proof {
        reveal_with_fuel(comments, 2);
    }
    let mut p = pos;
    while has_kind(toks, p, TokenKind::Comment)
        invariant
            pos <= p <= toks.len(),
            pos + comments(token_views(toks@), pos as int) == p + comments(
                token_views(toks@),
                p as int,
            ),
        decreases toks.len() - p,
    {
        proof {
            reveal_with_fuel(comments, 2);
        }
        p += 1;
    }
    p - pos
}

/// The text of the token at `pos`.
pub(crate) fn text_at(toks: &Vec<SpannedToken>, pos: usize) -> (s: String)
    requires
        pos < toks.len(),
    ensures
        s@ == text_of(token_views(toks@), pos as int),
{
    proof {
        reveal(text_of);
    }
    match &toks[pos].token {
        Token::TypeIdentifier(s) => s.clone(),
        Token::ObjectIdentifier(s) => s.clone(),
        Token::String(s) => s.clone(),
        _ => String::new(),
    }
}

/// The value of the token at `pos`.
pub(crate) fn number_at(toks: &Vec<SpannedToken>, pos: usize) -> (n: i32)
    requires
        pos < toks.len(),
    ensures
        n as int == number_of(token_views(toks@), pos as int),
{
    proof {
        reveal(number_of);
    }
    match &toks[pos].token {
        Token::Integer(i) => *i,
        _ => 0,
    }
}

/// The type that the token at `pos` names, if it names one.
pub(crate) fn read_type(toks: &Vec<SpannedToken>, pos: usize) -> (t: Option<String>)
    ensures
        match t {
            Some(s) => named_type(token_views(toks@), pos as int) == Some(s@),
            None => named_type(token_views(toks@), pos as int) is None,
        },
        t is Some ==> pos < toks.len(),
{
    proof {
        reveal(named_type);
    }
    if has_kind(toks, pos, TokenKind::TypeIdentifier) {
        Some(text_at(toks, pos))
    } else if has_kind(toks, pos, TokenKind::SelfType) {
        Some("SELF_TYPE".to_owned())
    } else {
        None
    }
}

/// The kinds of token that name a type.
pub(crate) fn type_kinds_list() -> (v: Vec<TokenKind>)
    ensures
        v@ == type_kinds(),
{
    let v = vec![TokenKind::TypeIdentifier, TokenKind::SelfType];
    assert(v@ =~= type_kinds());
    v
}

/// The operators of one precedence level.
fn level_ops_list(level: u8) -> (v: Vec<TokenKind>)
    ensures
        v@ == level_ops(level as nat),
{
    proof {
        reveal(level_ops);
    }
    if level == 1 {
        let v = vec![TokenKind::Multiply, TokenKind::Divide];
        assert(v@ =~= level_ops(1));
        v
    } else if level == 2 {
        let v = vec![TokenKind::Plus, TokenKind::Minus];
        assert(v@ =~= level_ops(2));
        v
    } else {
        let v = vec![TokenKind::LessThan, TokenKind::LessThanOrEqual, TokenKind::Equal];
        assert(v@ =~= level_ops(level as nat));
        v
    }
}

/// The kinds of token with which an atom can start.
fn atom_kinds_list() -> (v: Vec<TokenKind>)
    ensures
        v@ == atom_kinds(),
{
    let v = vec![
        TokenKind::String,
        TokenKind::Integer,
        TokenKind::True,
        TokenKind::False,
        TokenKind::Isvoid,
        TokenKind::SelfLit,
        TokenKind::ObjectIdentifier,
        TokenKind::Let,
        TokenKind::If,
        TokenKind::While,
        TokenKind::Case,
        TokenKind::New,
        TokenKind::LeftBrace,
        TokenKind::LeftParen,
    ];
    assert(v@ =~= atom_kinds());
    v
}

/// The two kinds `a` and `b`.
pub(crate) fn pair_of(a: TokenKind, b: TokenKind) -> (v: Vec<TokenKind>)
    ensures
        v@ == seq![a, b],
{
    let v = vec![a, b];
    assert(v@ =~= seq![a, b]);
    v
}

/// Whether an operator of the given level stands at `pos`.
fn has_op(toks: &Vec<SpannedToken>, pos: usize, level: u8) -> (r: bool)
    ensures
        r == is_op(token_views(toks@), pos as int, level as nat),
        r ==> pos < toks.len(),
{
    if level == 1 {
        has_kind(toks, pos, TokenKind::Multiply) || has_kind(toks, pos, TokenKind::Divide)
    } else if level == 2 {
        has_kind(toks, pos, TokenKind::Plus) || has_kind(toks, pos, TokenKind::Minus)
    } else {
        has_kind(toks, pos, TokenKind::LessThan) || has_kind(toks, pos, TokenKind::LessThanOrEqual)
            || has_kind(toks, pos, TokenKind::Equal)
    }
}

/// The node that the operator `op` builds from its operands.
fn binary_expr(op: TokenKind, lhs: Expr, rhs: Expr) -> (e: Expr)
    ensures
        e@ == binary_node(op, lhs@, rhs@),
{
    proof {
        reveal(binary_node);
    }
    reveal(Expr::shape);
    match op {
        TokenKind::Multiply => Expr::Times(Box::new(lhs), Box::new(rhs)),
        TokenKind::Divide => Expr::Divide(Box::new(lhs), Box::new(rhs)),
        TokenKind::Plus => Expr::Plus(Box::new(lhs), Box::new(rhs)),
        TokenKind::Minus => Expr::Minus(Box::new(lhs), Box::new(rhs)),
        TokenKind::LessThan => Expr::Lt(Box::new(lhs), Box::new(rhs)),
        TokenKind::LessThanOrEqual => Expr::Le(Box::new(lhs), Box::new(rhs)),
        _ => Expr::Eq(Box::new(lhs), Box::new(rhs)),
    }
}

/// The list that holds `e` alone.
fn one_expr(e: Expr) -> (v: Vec<Expr>)
    ensures
        views(v@) == seq![e@],
{
    let mut v: Vec<Expr> = Vec::new();
    proof {
        lemma_views_empty(v@);
        lemma_views_push(v@, e);
    }
    v.push(e);
    v
}

/// The list that holds no expression.
fn no_exprs() -> (v: Vec<Expr>)
    ensures
        views(v@) == Seq::<ExprView>::empty(),
{
    let v: Vec<Expr> = Vec::new();
    proof {
        lemma_views_empty(v@);
    }
    v
}

/// Parses `id ':' TypeId`.
pub(crate) fn typed_name(toks: &Vec<SpannedToken>, pos: usize) -> (o: Outcome<(String, String)>)
    requires
        pos <= toks.len(),
    ensures
        agrees(o, g_typed_name(token_views(toks@), pos as int), |t: (String, String)| (t.0@, t.1@)),
        o.out matches Some((_, used)) ==> used == 3 && pos + 3 <= toks.len(),
{
    proof {
        reveal(g_typed_name);
    }
    if !has_kind(toks, pos, TokenKind::ObjectIdentifier) {
        Outcome { out: None, far: furthest_miss(pos, TokenKind::ObjectIdentifier) }
    } else if !has_kind(toks, pos + 1, TokenKind::Colon) {
        Outcome { out: None, far: furthest_miss(pos + 1, TokenKind::Colon) }
    } else {
        match read_type(toks, pos + 2) {
            None => Outcome { out: None, far: furthest_at(pos + 2, type_kinds_list()) },
            Some(typ) => Outcome { out: Some(((text_at(toks, pos), typ), 3)), far: furthest_none() },
        }
    }
}

/// Parses an expression.
pub(crate) fn expr(toks: &Vec<SpannedToken>, pos: usize) -> (o: Outcome<Expr>)
    requires
        pos <= toks.len(),
    ensures
        agrees(o, g_expr(token_views(toks@), pos as int), |e: Expr| e@),
        o.out matches Some((_, used)) ==> pos + used <= toks.len(),
    decreases remaining(token_views(toks@), pos as int), 22int,
{
    binary(toks, pos, 3)
}

/// Parses an expression between comments.
pub(crate) fn padded(toks: &Vec<SpannedToken>, pos: usize) -> (o: Outcome<Expr>)
    requires
        pos <= toks.len(),
    ensures
        agrees(o, g_padded(token_views(toks@), pos as int), |e: Expr| e@),
        o.out matches Some((_, used)) ==> pos + used <= toks.len(),
    decreases remaining(token_views(toks@), pos as int), 23int,
{
    let c = count_comments(toks, pos);
    let inner = expr(toks, pos + c);
    match inner.out {
        None => Outcome { out: None, far: inner.far },
        Some((e, n)) => Outcome {
            out: Some((e, c + n + count_comments(toks, pos + c + n))),
            far: inner.far,
        },
    }
}

/// Parses a chain of operands joined by the operators of `level`.
fn binary(toks: &Vec<SpannedToken>, pos: usize, level: u8) -> (o: Outcome<Expr>)
    requires
        pos <= toks.len(),
        level <= 3,
    ensures
        agrees(o, g_binary(token_views(toks@), pos as int, level as nat), |e: Expr| e@),
        o.out matches Some((_, used)) ==> pos + used <= toks.len(),
    decreases remaining(token_views(toks@), pos as int), 15 + 2 * level,
{
    if level == 0 {
        unary(toks, pos)
    } else {
        let first = binary(toks, pos, level - 1);
        match first.out {
            None => Outcome { out: None, far: first.far },
            Some((lhs, n)) => {
                let rest = binary_rest(toks, pos + n, level, lhs, first.far);
                Outcome { out: Some((rest.value, n + rest.used)), far: rest.far }
            },
        }
    }
}

/// Parses the rest of a chain of which `lhs0` has been read.
fn binary_rest(toks: &Vec<SpannedToken>, pos: usize, level: u8, lhs0: Expr, far0: Furthest) -> (r:
    RunOut<Expr>)
    requires
        pos <= toks.len(),
        1 <= level <= 3,
    ensures
        run_agrees(
            r,
            g_binary_rest(token_views(toks@), pos as int, level as nat, lhs0@, far0@),
            |e: Expr| e@,
        ),
        pos + r.used <= toks.len(),
    decreases remaining(token_views(toks@), pos as int), 0int,
{
    let ghost goal = g_binary_rest(token_views(toks@), pos as int, level as nat, lhs0@, far0@);
    let mut p = pos;
    let mut lhs = lhs0;
    let mut far = far0;
    loop
        invariant
            pos <= p <= toks.len(),
            1 <= level <= 3,
            goal == g_binary_rest(token_views(toks@), pos as int, level as nat, lhs0@, far0@),
            goal == g_binary_rest(token_views(toks@), p as int, level as nat, lhs@, far@).after(
                (p - pos) as nat,
            ),
        decreases toks.len() - p,
    {
        let c1 = count_comments(toks, p);
        let q = p + c1;
        if !has_op(toks, q, level) {
            let far = merge_far(far, furthest_at(q, level_ops_list(level)));
            return RunOut { value: lhs, used: p - pos, far };
        }
        let op = kind_at(toks, q);
        let c2 = count_comments(toks, q + 1);
        let rhs = binary(toks, q + 1 + c2, level - 1);
        far = merge_far(far, rhs.far);
        match rhs.out {
            None => {
                return RunOut { value: lhs, used: p - pos, far };
            },
            Some((r, n)) => {
                lhs = binary_expr(op, lhs, r);
                p = q + 1 + c2 + n;
            },
        }
    }
}

/// Parses any number of `not` and `~` and the postfix expression after them.
fn unary(toks: &Vec<SpannedToken>, pos: usize) -> (o: Outcome<Expr>)
    requires
        pos <= toks.len(),
    ensures
        agrees(o, g_unary(token_views(toks@), pos as int), |e: Expr| e@),
        o.out matches Some((_, used)) ==> pos + used <= toks.len(),
    decreases remaining(token_views(toks@), pos as int), 14int,
{
    if has_kind(toks, pos, TokenKind::Not) || has_kind(toks, pos, TokenKind::Tilde) {
        let inner = unary(toks, pos + 1);
        match inner.out {
            None => Outcome { out: None, far: inner.far },
            Some((e, n)) => Outcome { out: Some((Expr::negate(e), 1 + n)), far: inner.far },
        }
    } else {
        let inner = postfix(toks, pos);
        let kinds = pair_of(TokenKind::Not, TokenKind::Tilde);
        Outcome { out: inner.out, far: merge_far(furthest_at(pos, kinds), inner.far) }
    }
}

/// Parses an atom and the dispatches that follow it.
fn postfix(toks: &Vec<SpannedToken>, pos: usize) -> (o: Outcome<Expr>)
    requires
        pos <= toks.len(),
    ensures
        agrees(o, g_postfix(token_views(toks@), pos as int), |e: Expr| e@),
        o.out matches Some((_, used)) ==> pos + used <= toks.len(),
    decreases remaining(token_views(toks@), pos as int), 13int,
{
    let first = atom(toks, pos);
    match first.out {
        None => Outcome { out: None, far: first.far },
        Some((e, n)) => {
            let rest = postfix_rest(toks, pos + n, e, first.far);
            Outcome { out: Some((rest.value, n + rest.used)), far: rest.far }
        },
    }
}

/// Parses the dispatches that follow the receiver `recv0`.
fn postfix_rest(toks: &Vec<SpannedToken>, pos: usize, recv0: Expr, far0: Furthest) -> (r: RunOut<
    Expr,
>)
    requires
        pos <= toks.len(),
    ensures
        run_agrees(
            r,
            g_postfix_rest(token_views(toks@), pos as int, recv0@, far0@),
            |e: Expr| e@,
        ),
        pos + r.used <= toks.len(),
    decreases remaining(token_views(toks@), pos as int), 0int,
{
    let ghost goal = g_postfix_rest(token_views(toks@), pos as int, recv0@, far0@);
    let mut p = pos;
    let mut recv = recv0;
    let mut far = far0;
    loop
        invariant
            pos <= p <= toks.len(),
            goal == g_postfix_rest(token_views(toks@), pos as int, recv0@, far0@),
            goal == g_postfix_rest(token_views(toks@), p as int, recv@, far@).after(
                (p - pos) as nat,
            ),
        decreases toks.len() - p,
    {
        if has_kind(toks, p, TokenKind::Dot) {
            let call = method_call(toks, p + 1);
            far = merge_far(far, call.far);
            match call.out {
                None => {
                    return RunOut { value: recv, used: p - pos, far };
                },
                Some(((method, args), n)) => {
                    recv = Expr::dispatch(recv, None, method, args);
                    p = p + 1 + n;
                },
            }
        } else if has_kind(toks, p, TokenKind::TypeId) {
            let call = static_call(toks, p + 1);
            far = merge_far(far, call.far);
            match call.out {
                None => {
                    return RunOut { value: recv, used: p - pos, far };
                },
                Some(((typ, method, args), n)) => {
                    recv = Expr::dispatch(recv, Some(typ), method, args);
                    p = p + 1 + n;
                },
            }
        } else {
            let kinds = pair_of(TokenKind::Dot, TokenKind::TypeId);
            let far = merge_far(far, furthest_at(p, kinds));
            return RunOut { value: recv, used: p - pos, far };
        }
    }
}

/// Parses `id '(' args ')'`.
fn method_call(toks: &Vec<SpannedToken>, pos: usize) -> (o: Outcome<(String, Vec<Expr>)>)
    requires
        pos <= toks.len(),
    ensures
        agrees(
            o,
            g_method_call(token_views(toks@), pos as int),
            |c: (String, Vec<Expr>)| (c.0@, views(c.1@)),
        ),
        o.out matches Some((_, used)) ==> pos + used <= toks.len(),
    decreases remaining(token_views(toks@), pos as int), 25int,
{
    if !has_kind(toks, pos, TokenKind::ObjectIdentifier) {
        Outcome { out: None, far: furthest_miss(pos, TokenKind::ObjectIdentifier) }
    } else {
        let call = call_tail(toks, pos + 1);
        match call.out {
            None => Outcome { out: None, far: call.far },
            Some((args, n)) => Outcome {
                out: Some(((text_at(toks, pos), args), 1 + n)),
                far: call.far,
            },
        }
    }
}

/// Parses `TypeId '.' id '(' args ')'`.
fn static_call(toks: &Vec<SpannedToken>, pos: usize) -> (o: Outcome<(String, String, Vec<Expr>)>)
    requires
        pos <= toks.len(),
    ensures
        agrees(
            o,
            g_static_call(token_views(toks@), pos as int),
            |c: (String, String, Vec<Expr>)| (c.0@, c.1@, views(c.2@)),
        ),
        o.out matches Some((_, used)) ==> pos + used <= toks.len(),
    decreases remaining(token_views(toks@), pos as int), 26int,
{
    match read_type(toks, pos) {
        None => Outcome { out: None, far: furthest_at(pos, type_kinds_list()) },
        Some(typ) => {
            if !has_kind(toks, pos + 1, TokenKind::Dot) {
                Outcome { out: None, far: furthest_miss(pos + 1, TokenKind::Dot) }
            } else {
                let call = method_call(toks, pos + 2);
                match call.out {
                    None => Outcome { out: None, far: call.far },
                    Some(((method, args), n)) => Outcome {
                        out: Some(((typ, method, args), 2 + n)),
                        far: call.far,
                    },
                }
            }
        },
    }
}

/// Parses `'(' args ')'`.
fn call_tail(toks: &Vec<SpannedToken>, pos: usize) -> (o: Outcome<Vec<Expr>>)
    requires
        pos <= toks.len(),
    ensures
        agrees(o, g_call_tail(token_views(toks@), pos as int), |v: Vec<Expr>| views(v@)),
        o.out matches Some((_, used)) ==> pos + used <= toks.len(),
    decreases remaining(token_views(toks@), pos as int), 24int,
{
    if !has_kind(toks, pos, TokenKind::LeftParen) {
        Outcome { out: None, far: furthest_miss(pos, TokenKind::LeftParen) }
    } else {
        let list = args(toks, pos + 1);
        if has_kind(toks, pos + 1 + list.used, TokenKind::RightParen) {
            Outcome { out: Some((list.value, list.used + 2)), far: list.far }
        } else {
            Outcome {
                out: None,
                far: merge_far(
                    list.far,
                    furthest_miss(pos + 1 + list.used, TokenKind::RightParen),
                ),
            }
        }
    }
}

/// Parses the arguments of a call.
fn args(toks: &Vec<SpannedToken>, pos: usize) -> (r: RunOut<Vec<Expr>>)
    requires
        pos <= toks.len(),
    ensures
        run_agrees(r, g_args(token_views(toks@), pos as int), |v: Vec<Expr>| views(v@)),
        pos + r.used <= toks.len(),
    decreases remaining(token_views(toks@), pos as int), 23int,
{
    let first = expr(toks, pos);
    match first.out {
        None => RunOut { value: no_exprs(), used: 0, far: first.far },
        Some((e, n)) => {
            let rest = args_rest(toks, pos + n, one_expr(e), first.far);
            RunOut { value: rest.value, used: rest.used + n, far: rest.far }
        },
    }
}

/// Parses the arguments that follow those in `acc0`.
fn args_rest(toks: &Vec<SpannedToken>, pos: usize, acc0: Vec<Expr>, far0: Furthest) -> (r: RunOut<
    Vec<Expr>,
>)
    requires
        pos <= toks.len(),
    ensures
        run_agrees(
            r,
            g_args_rest(token_views(toks@), pos as int, views(acc0@), far0@),
            |v: Vec<Expr>| views(v@),
        ),
        pos + r.used <= toks.len(),
    decreases remaining(token_views(toks@), pos as int), 0int,
{
    let ghost goal = g_args_rest(token_views(toks@), pos as int, views(acc0@), far0@);
    let mut p = pos;
    let mut acc = acc0;
    let mut far = far0;
    loop
        invariant
            pos <= p <= toks.len(),
            goal == g_args_rest(token_views(toks@), pos as int, views(acc0@), far0@),
            goal == g_args_rest(token_views(toks@), p as int, views(acc@), far@).after(
                (p - pos) as nat,
            ),
        decreases toks.len() - p,
    {
        if !has_kind(toks, p, TokenKind::Comma) {
            let far = merge_far(far, furthest_miss(p, TokenKind::Comma));
            return RunOut { value: acc, used: p - pos, far };
        }
        let next = expr(toks, p + 1);
        far = merge_far(far, next.far);
        match next.out {
            None => {
                return RunOut { value: acc, used: p + 1 - pos, far };
            },
            Some((e, n)) => {
                proof {
                    lemma_views_push(acc@, e);
                }
                acc.push(e);
                p = p + 1 + n;
            },
        }
    }
}

/// Parses an atom between comments.
fn atom(toks: &Vec<SpannedToken>, pos: usize) -> (o: Outcome<Expr>)
    requires
        pos <= toks.len(),
    ensures
        agrees(o, g_atom(token_views(toks@), pos as int), |e: Expr| e@),
        o.out matches Some((_, used)) ==> pos + used <= toks.len(),
    decreases remaining(token_views(toks@), pos as int), 12int,
{
    let c = count_comments(toks, pos);
    let inner = atom_core(toks, pos + c);
    match inner.out {
        None => Outcome { out: None, far: inner.far },
        Some((e, n)) => Outcome {
            out: Some((e, c + n + count_comments(toks, pos + c + n))),
            far: inner.far,
        },
    }
}

/// The outcome of a production that began one token before `inner` did.
fn shifted(inner: Outcome<Expr>, Ghost(found): Ghost<Parsed<ExprView>>) -> (o: Outcome<Expr>)
    requires
        agrees(inner, found, |e: Expr| e@),
        inner.out matches Some((_, used)) ==> used < usize::MAX,
    ensures
        agrees(o, found.after(1), |e: Expr| e@),
        o.out matches Some((_, used)) ==> inner.out matches Some((_, before)) && used == before + 1,
{
    match inner.out {
        None => Outcome { out: None, far: inner.far },
        Some((e, n)) => Outcome { out: Some((e, n + 1)), far: inner.far },
    }
}

/// Parses an atom.
fn atom_core(toks: &Vec<SpannedToken>, pos: usize) -> (o: Outcome<Expr>)
    requires
        pos <= toks.len(),
    ensures
        agrees(o, g_atom_core(token_views(toks@), pos as int), |e: Expr| e@),
        o.out matches Some((_, used)) ==> pos + used <= toks.len(),
    decreases remaining(token_views(toks@), pos as int), 11int,
{
    if has_kind(toks, pos, TokenKind::String) {
        Outcome { out: Some((Expr::string(text_at(toks, pos)), 1)), far: furthest_none() }
    } else if has_kind(toks, pos, TokenKind::Integer) {
        Outcome { out: Some((Expr::integer(number_at(toks, pos)), 1)), far: furthest_none() }
    } else if has_kind(toks, pos, TokenKind::True) {
        Outcome { out: Some((Expr::truth(true), 1)), far: furthest_none() }
    } else if has_kind(toks, pos, TokenKind::False) {
        Outcome { out: Some((Expr::truth(false), 1)), far: furthest_none() }
    } else if has_kind(toks, pos, TokenKind::Isvoid) {
        let inner = expr(toks, pos + 1);
        match inner.out {
            None => Outcome { out: None, far: inner.far },
            Some((e, n)) => Outcome { out: Some((Expr::is_void(e), 1 + n)), far: inner.far },
        }
    } else if has_kind(toks, pos, TokenKind::SelfLit) {
        Outcome { out: Some((Expr::id("self".to_owned()), 1)), far: furthest_none() }
    } else if has_kind(toks, pos, TokenKind::ObjectIdentifier) {
        let named = named_tail(toks, pos + 1, text_at(toks, pos));
        Outcome { out: Some((named.value, 1 + named.used)), far: named.far }
    } else if has_kind(toks, pos, TokenKind::New) {
        match read_type(toks, pos + 1) {
            None => Outcome { out: None, far: furthest_at(pos + 1, type_kinds_list()) },
            Some(t) => Outcome { out: Some((Expr::create(t), 2)), far: furthest_none() },
        }
    } else {
        enclosing(toks, pos)
    }
}

/// Parses a `let`, an `if`, a `while`, a `case`, a block or an expression in
/// parentheses.
fn enclosing(toks: &Vec<SpannedToken>, pos: usize) -> (o: Outcome<Expr>)
    requires
        pos <= toks.len(),
    ensures
        agrees(o, g_enclosing(token_views(toks@), pos as int), |e: Expr| e@),
        o.out matches Some((_, used)) ==> pos + used <= toks.len(),
    decreases remaining(token_views(toks@), pos as int), 10int,
{
    if has_kind(toks, pos, TokenKind::Let) {
        shifted(
            let_tail(toks, pos + 1),
            Ghost(g_let_tail(token_views(toks@), pos + 1)),
        )
    } else if has_kind(toks, pos, TokenKind::If) {
        shifted(
            if_tail(toks, pos + 1),
            Ghost(g_if_tail(token_views(toks@), pos + 1)),
        )
    } else if has_kind(toks, pos, TokenKind::While) {
        shifted(
            while_tail(toks, pos + 1),
            Ghost(g_while_tail(token_views(toks@), pos + 1)),
        )
    } else if has_kind(toks, pos, TokenKind::Case) {
        shifted(
            case_tail(toks, pos + 1),
            Ghost(g_case_tail(token_views(toks@), pos + 1)),
        )
    } else if has_kind(toks, pos, TokenKind::LeftBrace) {
        shifted(
            block_tail(toks, pos + 1),
            Ghost(g_block_tail(token_views(toks@), pos + 1)),
        )
    } else if has_kind(toks, pos, TokenKind::LeftParen) {
        let inner = expr(toks, pos + 1);
        match inner.out {
            None => Outcome { out: None, far: inner.far },
            Some((e, n)) => {
                if has_kind(toks, pos + 1 + n, TokenKind::RightParen) {
                    Outcome { out: Some((e, n + 2)), far: inner.far }
                } else {
                    Outcome {
                        out: None,
                        far: merge_far(inner.far, furthest_miss(pos + 1 + n, TokenKind::RightParen)),
                    }
                }
            },
        }
    } else {
        Outcome { out: None, far: furthest_at(pos, atom_kinds_list()) }
    }
}

/// Parses what follows the identifier `name` at the start of an atom.
fn named_tail(toks: &Vec<SpannedToken>, pos: usize, name: String) -> (r: RunOut<Expr>)
    requires
        pos <= toks.len(),
    ensures
        run_agrees(r, g_named_tail(token_views(toks@), pos as int, name@), |e: Expr| e@),
        pos + r.used <= toks.len(),
    decreases remaining(token_views(toks@), pos as int), 25int,
{
    let assigned = if has_kind(toks, pos, TokenKind::Assign) {
        expr(toks, pos + 1)
    } else {
        Outcome { out: None, far: furthest_miss(pos, TokenKind::Assign) }
    };
    match assigned.out {
        Some((e, n)) => RunOut {
            value: Expr::assign(name, e),
            used: 1 + n,
            far: assigned.far,
        },
        None => {
            let call = call_tail(toks, pos);
            let far = merge_far(assigned.far, call.far);
            match call.out {
                Some((args, n)) => RunOut { value: Expr::call(name, args), used: n, far },
                None => RunOut { value: Expr::id(name), used: 0, far },
            }
        },
    }
}

/// The view of a declaration: a name, a type and an optional initial value.
pub open spec fn declaration_view(d: (String, String, Option<Expr>)) -> (
    Seq<char>,
    Seq<char>,
    Option<ExprView>,
) {
    (d.0@, d.1@, opt_expr_view(d.2))
}

/// Parses `id ':' TypeId ('<-' Expr)?`.
pub(crate) fn declaration(toks: &Vec<SpannedToken>, pos: usize) -> (o: Outcome<(String, String, Option<Expr>)>)
    requires
        pos <= toks.len(),
    ensures
        agrees(
            o,
            g_declaration(token_views(toks@), pos as int),
            |d: (String, String, Option<Expr>)| declaration_view(d),
        ),
        o.out matches Some((_, used)) ==> pos + used <= toks.len(),
    decreases remaining(token_views(toks@), pos as int), 1int,
{
    let head = typed_name(toks, pos);
    match head.out {
        None => Outcome { out: None, far: head.far },
        Some(((name, typ), _)) => {
            if has_kind(toks, pos + 3, TokenKind::Assign) {
                let init = expr(toks, pos + 4);
                match init.out {
                    None => Outcome { out: Some(((name, typ, None), 3)), far: init.far },
                    Some((e, n)) => {
                        proof {
                            lemma_view_of_expr(e);
                        }
                        Outcome { out: Some(((name, typ, Some(e)), 4 + n)), far: init.far }
                    },
                }
            } else {
                Outcome {
                    out: Some(((name, typ, None), 3)),
                    far: furthest_miss(pos + 3, TokenKind::Assign),
                }
            }
        },
    }
}

/// The binding of a `let` that a declaration stands for.
fn binding(d: (String, String, Option<Expr>)) -> (b: LetBinding)
    ensures
        b@ == as_binding(declaration_view(d)),
{
    LetBinding { name: d.0, typ: d.1, init: d.2 }
}

/// Parses a `let` after its keyword.
fn let_tail(toks: &Vec<SpannedToken>, pos: usize) -> (o: Outcome<Expr>)
    requires
        pos <= toks.len(),
    ensures
        agrees(o, g_let_tail(token_views(toks@), pos as int), |e: Expr| e@),
        o.out matches Some((_, used)) ==> pos + used <= toks.len(),
    decreases remaining(token_views(toks@), pos as int), 24int,
{
    let first = declaration(toks, pos);
    match first.out {
        None => Outcome { out: None, far: first.far },
        Some((d, n)) => {
            let mut acc: Vec<LetBinding> = Vec::new();
            let b = binding(d);
            proof {
                lemma_views_empty(acc@);
                lemma_views_push(acc@, b);
            }
            acc.push(b);
            let rest = let_rest(toks, pos + n, acc, first.far);
            let p = pos + n + rest.used;
            if !has_kind(toks, p, TokenKind::In) {
                Outcome { out: None, far: merge_far(rest.far, furthest_miss(p, TokenKind::In)) }
            } else {
                let body = padded(toks, p + 1);
                let far = merge_far(rest.far, body.far);
                match body.out {
                    None => Outcome { out: None, far },
                    Some((e, m)) => Outcome {
                        out: Some(
                            (
                                Expr::bind(rest.value, e),
                                n + rest.used + 1 + m,
                            ),
                        ),
                        far,
                    },
                }
            }
        },
    }
}

/// Parses the bindings that follow those in `acc0`.
fn let_rest(toks: &Vec<SpannedToken>, pos: usize, acc0: Vec<LetBinding>, far0: Furthest) -> (r:
    RunOut<Vec<LetBinding>>)
    requires
        pos <= toks.len(),
    ensures
        run_agrees(
            r,
            g_let_rest(token_views(toks@), pos as int, views(acc0@), far0@),
            |v: Vec<LetBinding>| views(v@),
        ),
        pos + r.used <= toks.len(),
    decreases remaining(token_views(toks@), pos as int), 0int,
{
    let ghost goal = g_let_rest(token_views(toks@), pos as int, views(acc0@), far0@);
    let mut p = pos;
    let mut acc = acc0;
    let mut far = far0;
    loop
        invariant
            pos <= p <= toks.len(),
            goal == g_let_rest(token_views(toks@), pos as int, views(acc0@), far0@),
            goal == g_let_rest(token_views(toks@), p as int, views(acc@), far@).after(
                (p - pos) as nat,
            ),
        decreases toks.len() - p,
    {
        if !has_kind(toks, p, TokenKind::Comma) {
            let far = merge_far(far, furthest_miss(p, TokenKind::Comma));
            return RunOut { value: acc, used: p - pos, far };
        }
        let next = declaration(toks, p + 1);
        far = merge_far(far, next.far);
        match next.out {
            None => {
                return RunOut { value: acc, used: p - pos, far };
            },
            Some((d, n)) => {
                let b = binding(d);
                proof {
                    lemma_views_push(acc@, b);
                }
                acc.push(b);
                p = p + 1 + n;
            },
        }
    }
}

/// Parses an `if` after its keyword.
fn if_tail(toks: &Vec<SpannedToken>, pos: usize) -> (o: Outcome<Expr>)
    requires
        pos <= toks.len(),
    ensures
        agrees(o, g_if_tail(token_views(toks@), pos as int), |e: Expr| e@),
        o.out matches Some((_, used)) ==> pos + used <= toks.len(),
    decreases remaining(token_views(toks@), pos as int), 25int,
{
    let cond = padded(toks, pos);
    match cond.out {
        None => Outcome { out: None, far: cond.far },
        Some((c, n1)) => {
            let p1 = pos + n1;
            if !has_kind(toks, p1, TokenKind::Then) {
                Outcome { out: None, far: merge_far(cond.far, furthest_miss(p1, TokenKind::Then)) }
            } else {
                let branches = if_branches(toks, p1 + 1);
                let far = merge_far(cond.far, branches.far);
                match branches.out {
                    None => Outcome { out: None, far },
                    Some(((t, e), n2)) => Outcome {
                        out: Some(
                            (
                                Expr::conditional(c, t, e),
                                n1 + 1 + n2,
                            ),
                        ),
                        far,
                    },
                }
            }
        },
    }
}

/// Parses the two branches of an `if`.
fn if_branches(toks: &Vec<SpannedToken>, pos: usize) -> (o: Outcome<(Expr, Expr)>)
    requires
        pos <= toks.len(),
    ensures
        agrees(o, g_if_branches(token_views(toks@), pos as int), |b: (Expr, Expr)| (b.0@, b.1@)),
        o.out matches Some((_, used)) ==> pos + used <= toks.len(),
    decreases remaining(token_views(toks@), pos as int), 24int,
{
    let yes = padded(toks, pos);
    match yes.out {
        None => Outcome { out: None, far: yes.far },
        Some((t, n1)) => {
            let p1 = pos + n1;
            if !has_kind(toks, p1, TokenKind::Else) {
                Outcome { out: None, far: merge_far(yes.far, furthest_miss(p1, TokenKind::Else)) }
            } else {
                let no = padded(toks, p1 + 1);
                let far = merge_far(yes.far, no.far);
                match no.out {
                    None => Outcome { out: None, far },
                    Some((e, n2)) => {
                        let p2 = p1 + 1 + n2;
                        if !has_kind(toks, p2, TokenKind::Fi) {
                            Outcome { out: None, far: merge_far(far, furthest_miss(p2, TokenKind::Fi)) }
                        } else {
                            Outcome { out: Some(((t, e), n1 + 1 + n2 + 1)), far }
                        }
                    },
                }
            }
        },
    }
}

/// Parses a `while` after its keyword.
fn while_tail(toks: &Vec<SpannedToken>, pos: usize) -> (o: Outcome<Expr>)
    requires
        pos <= toks.len(),
    ensures
        agrees(o, g_while_tail(token_views(toks@), pos as int), |e: Expr| e@),
        o.out matches Some((_, used)) ==> pos + used <= toks.len(),
    decreases remaining(token_views(toks@), pos as int), 24int,
{
    let cond = padded(toks, pos);
    match cond.out {
        None => Outcome { out: None, far: cond.far },
        Some((c, n1)) => {
            let p1 = pos + n1;
            if !has_kind(toks, p1, TokenKind::Loop) {
                Outcome { out: None, far: merge_far(cond.far, furthest_miss(p1, TokenKind::Loop)) }
            } else {
                let body = padded(toks, p1 + 1);
                let far2 = merge_far(cond.far, body.far);
                match body.out {
                    None => Outcome { out: None, far: far2 },
                    Some((b, n2)) => {
                        let p2 = p1 + 1 + n2;
                        if !has_kind(toks, p2, TokenKind::Pool) {
                            Outcome {
                                out: None,
                                far: merge_far(far2, furthest_miss(p2, TokenKind::Pool)),
                            }
                        } else {
                            Outcome {
                                out: Some(
                                    (
                                        Expr::repeat(c, b),
                                        n1 + 1 + n2 + 1,
                                    ),
                                ),
                                far: far2,
                            }
                        }
                    },
                }
            }
        },
    }
}

/// Parses one branch of a `case`.
fn case_branch(toks: &Vec<SpannedToken>, pos: usize) -> (o: Outcome<CaseBranch>)
    requires
        pos <= toks.len(),
    ensures
        agrees(o, g_case_branch(token_views(toks@), pos as int), |b: CaseBranch| b@),
        o.out matches Some((_, used)) ==> pos + used <= toks.len(),
    decreases remaining(token_views(toks@), pos as int), 1int,
{
    let head = typed_name(toks, pos);
    match head.out {
        None => Outcome { out: None, far: head.far },
        Some(((name, typ), _)) => {
            if !has_kind(toks, pos + 3, TokenKind::DoubleArrow) {
                Outcome { out: None, far: furthest_miss(pos + 3, TokenKind::DoubleArrow) }
            } else {
                let body = expr(toks, pos + 4);
                match body.out {
                    None => Outcome { out: None, far: body.far },
                    Some((e, n)) => {
                        proof {
                            lemma_view_of_expr(e);
                        }
                        Outcome { out: Some((CaseBranch { name, typ, expr: e }, 4 + n)), far: body.far }
                    },
                }
            }
        },
    }
}

/// Parses a `case` after its keyword.
fn case_tail(toks: &Vec<SpannedToken>, pos: usize) -> (o: Outcome<Expr>)
    requires
        pos <= toks.len(),
    ensures
        agrees(o, g_case_tail(token_views(toks@), pos as int), |e: Expr| e@),
        o.out matches Some((_, used)) ==> pos + used <= toks.len(),
    decreases remaining(token_views(toks@), pos as int), 24int,
{
    let subject = padded(toks, pos);
    match subject.out {
        None => Outcome { out: None, far: subject.far },
        Some((s, n1)) => {
            let p1 = pos + n1;
            if !has_kind(toks, p1, TokenKind::Of) {
                Outcome { out: None, far: merge_far(subject.far, furthest_miss(p1, TokenKind::Of)) }
            } else {
                let first = case_branch(toks, p1 + 1);
                let far2 = merge_far(subject.far, first.far);
                match first.out {
                    None => Outcome { out: None, far: far2 },
                    Some((b, n2)) => {
                        let mut acc: Vec<CaseBranch> = Vec::new();
                        proof {
                            lemma_views_empty(acc@);
                            lemma_views_push(acc@, b);
                        }
                        acc.push(b);
                        let rest = case_rest(toks, p1 + 1 + n2, acc, far2);
                        let p2 = p1 + 1 + n2 + rest.used;
                        if !has_kind(toks, p2, TokenKind::Esac) {
                            Outcome {
                                out: None,
                                far: merge_far(rest.far, furthest_miss(p2, TokenKind::Esac)),
                            }
                        } else {
                            Outcome {
                                out: Some(
                                    (
                                        Expr::select(s, rest.value),
                                        n1 + 1 + n2 + rest.used + 1,
                                    ),
                                ),
                                far: rest.far,
                            }
                        }
                    },
                }
            }
        },
    }
}

/// Parses the branches that follow those in `acc0`.
fn case_rest(toks: &Vec<SpannedToken>, pos: usize, acc0: Vec<CaseBranch>, far0: Furthest) -> (r:
    RunOut<Vec<CaseBranch>>)
    requires
        pos <= toks.len(),
    ensures
        run_agrees(
            r,
            g_case_rest(token_views(toks@), pos as int, views(acc0@), far0@),
            |v: Vec<CaseBranch>| views(v@),
        ),
        pos + r.used <= toks.len(),
    decreases remaining(token_views(toks@), pos as int), 0int,
{
    let ghost goal = g_case_rest(token_views(toks@), pos as int, views(acc0@), far0@);
    let mut p = pos;
    let mut acc = acc0;
    let mut far = far0;
    loop
        invariant
            pos <= p <= toks.len(),
            goal == g_case_rest(token_views(toks@), pos as int, views(acc0@), far0@),
            goal == g_case_rest(token_views(toks@), p as int, views(acc@), far@).after(
                (p - pos) as nat,
            ),
        decreases toks.len() - p,
    {
        if !has_kind(toks, p, TokenKind::Semicolon) {
            let far = merge_far(far, furthest_miss(p, TokenKind::Semicolon));
            return RunOut { value: acc, used: p - pos, far };
        }
        let next = case_branch(toks, p + 1);
        far = merge_far(far, next.far);
        match next.out {
            None => {
                return RunOut { value: acc, used: p + 1 - pos, far };
            },
            Some((b, n)) => {
                proof {
                    lemma_views_push(acc@, b);
                }
                acc.push(b);
                p = p + 1 + n;
            },
        }
    }
}

/// Parses a block after its opening brace.
fn block_tail(toks: &Vec<SpannedToken>, pos: usize) -> (o: Outcome<Expr>)
    requires
        pos <= toks.len(),
    ensures
        agrees(o, g_block_tail(token_views(toks@), pos as int), |e: Expr| e@),
        o.out matches Some((_, used)) ==> pos + used <= toks.len(),
    decreases remaining(token_views(toks@), pos as int), 24int,
{
    let first = padded(toks, pos);
    match first.out {
        None => Outcome { out: None, far: first.far },
        Some((e, n)) => {
            let rest = block_rest(toks, pos + n, one_expr(e), first.far);
            let p = pos + n + rest.used;
            let c = count_comments(toks, p);
            if !has_kind(toks, p + c, TokenKind::RightBrace) {
                Outcome {
                    out: None,
                    far: merge_far(rest.far, furthest_miss(p + c, TokenKind::RightBrace)),
                }
            } else {
                Outcome { out: Some((Expr::block(rest.value), n + rest.used + c + 1)), far: rest.far }
            }
        },
    }
}

/// Parses the expressions that follow those in `acc0`.
fn block_rest(toks: &Vec<SpannedToken>, pos: usize, acc0: Vec<Expr>, far0: Furthest) -> (r: RunOut<
    Vec<Expr>,
>)
    requires
        pos <= toks.len(),
    ensures
        run_agrees(
            r,
            g_block_rest(token_views(toks@), pos as int, views(acc0@), far0@),
            |v: Vec<Expr>| views(v@),
        ),
        pos + r.used <= toks.len(),
    decreases remaining(token_views(toks@), pos as int), 0int,
{
    let ghost goal = g_block_rest(token_views(toks@), pos as int, views(acc0@), far0@);
    let mut p = pos;
    let mut acc = acc0;
    let mut far = far0;
    loop
        invariant
            pos <= p <= toks.len(),
            goal == g_block_rest(token_views(toks@), pos as int, views(acc0@), far0@),
            goal == g_block_rest(token_views(toks@), p as int, views(acc@), far@).after(
                (p - pos) as nat,
            ),
        decreases toks.len() - p,
    {
        if !(has_kind(toks, p, TokenKind::Dot) || has_kind(toks, p, TokenKind::Semicolon)) {
            let kinds = pair_of(TokenKind::Dot, TokenKind::Semicolon);
            let far = merge_far(far, furthest_at(p, kinds));
            return RunOut { value: acc, used: p - pos, far };
        }
        let next = padded(toks, p + 1);
        far = merge_far(far, next.far);
        match next.out {
            None => {
                return RunOut { value: acc, used: p + 1 - pos, far };
            },
            Some((e, n)) => {
                proof {
                    lemma_views_push(acc@, e);
                }
                acc.push(e);
                p = p + 1 + n;
            },
        }
    }
}

} // verus!
