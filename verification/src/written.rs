//! Trees written out as tokens.
//!
//! Every expression is written within parentheses. The grammar leaves no
//! trace of parentheses in the tree, so none is lost: parsing what was
//! written yields the tree again.

use vstd::prelude::*;
use crate::ast::{
    CaseBranchView, ClassView, ExprView, FeatureView, FormalView, LetBindingView, MethodFeatureView,
    ProgramView,
};
use crate::token::{numbered, plain, worded, TokenKind, TokenView};

verus! {

/// The token of kind `kind` that carries the text `text`.
pub open spec fn named(kind: TokenKind, text: Seq<char>) -> Seq<TokenView> {
    seq![worded(kind, text)]
}

/// The token of kind `kind`.
pub open spec fn sign(kind: TokenKind) -> Seq<TokenView> {
    seq![plain(kind)]
}

/// `id ':' TypeId`, with the given name and type.
pub open spec fn written_typed_name(name: Seq<char>, typ: Seq<char>) -> Seq<TokenView> {
    seq![
        worded(TokenKind::ObjectIdentifier, name),
        plain(TokenKind::Colon),
        worded(TokenKind::TypeIdentifier, typ),
    ]
}

/// The arguments of a call, written between parentheses.
pub open spec fn written_call_tail(args: Seq<ExprView>) -> Seq<TokenView>
    decreases args, args.len() + 2,
{
    sign(TokenKind::LeftParen) + written_list(args, TokenKind::Comma) + sign(TokenKind::RightParen)
}

/// What stands between the receiver of a dispatch and the name of the
/// method: a dot, or `'@' TypeId '.'` where the type is named.
pub open spec fn written_link(static_type: Option<Seq<char>>) -> Seq<TokenView> {
    match static_type {
        None => sign(TokenKind::Dot),
        Some(t) => sign(TokenKind::TypeId) + named(TokenKind::TypeIdentifier, t) + sign(
            TokenKind::Dot,
        ),
    }
}

/// The expression `e`, written within parentheses.
pub open spec fn written(e: ExprView) -> Seq<TokenView>
    decreases e, 1int,
{
    sign(TokenKind::LeftParen) + written_bare(e) + sign(TokenKind::RightParen)
}

/// The expression `e`, written without parentheses around it. Its parts
/// are written within parentheses.
#[verifier::opaque]
pub open spec fn written_bare(e: ExprView) -> Seq<TokenView>
    decreases e, 0int,
{
    match e {
        ExprView::Assign { name, expr } => named(TokenKind::ObjectIdentifier, name) + sign(
            TokenKind::Assign,
        ) + written(*expr),
        ExprView::Dispatch { expr, static_type, method, args } => written(*expr) + written_link(
            static_type,
        ) + (named(TokenKind::ObjectIdentifier, method) + written_call_tail(args)),
        ExprView::FuncCall { name, args } => named(TokenKind::ObjectIdentifier, name)
            + written_call_tail(args),
        ExprView::If { cond, then_branch, else_branch } => sign(TokenKind::If) + written(*cond)
            + sign(TokenKind::Then) + written(*then_branch) + sign(TokenKind::Else) + written(
            *else_branch,
        ) + sign(TokenKind::Fi),
        ExprView::While { cond, body } => sign(TokenKind::While) + written(*cond) + sign(
            TokenKind::Loop,
        ) + written(*body) + sign(TokenKind::Pool),
        ExprView::Block(items) => sign(TokenKind::LeftBrace) + written_list(
            items,
            TokenKind::Semicolon,
        ) + sign(TokenKind::RightBrace),
        ExprView::Let { bindings, body } => sign(TokenKind::Let) + written_bindings(bindings, 0)
            + sign(TokenKind::In) + written(*body),
        ExprView::Case { expr, branches } => sign(TokenKind::Case) + written(*expr) + sign(
            TokenKind::Of,
        ) + written_branches(branches, 0) + sign(TokenKind::Esac),
        ExprView::New(t) => sign(TokenKind::New) + named(TokenKind::TypeIdentifier, t),
        ExprView::IsVoid(a) => sign(TokenKind::Isvoid) + written(*a),
        ExprView::Plus(a, b) => written(*a) + sign(TokenKind::Plus) + written(*b),
        ExprView::Minus(a, b) => written(*a) + sign(TokenKind::Minus) + written(*b),
        ExprView::Times(a, b) => written(*a) + sign(TokenKind::Multiply) + written(*b),
        ExprView::Divide(a, b) => written(*a) + sign(TokenKind::Divide) + written(*b),
        ExprView::Lt(a, b) => written(*a) + sign(TokenKind::LessThan) + written(*b),
        ExprView::Le(a, b) => written(*a) + sign(TokenKind::LessThanOrEqual) + written(*b),
        ExprView::Eq(a, b) => written(*a) + sign(TokenKind::Equal) + written(*b),
        ExprView::Not(a) => sign(TokenKind::Not) + written(*a),
        ExprView::Paren(a) => written(*a),
        ExprView::Id(name) => named(TokenKind::ObjectIdentifier, name),
        ExprView::Integer(value) => seq![numbered(value)],
        ExprView::String(text) => named(TokenKind::String, text),
        ExprView::True => sign(TokenKind::True),
        ExprView::False => sign(TokenKind::False),
    }
}

/// The expressions `items`, written with `separator` between them.
pub open spec fn written_list(items: Seq<ExprView>, separator: TokenKind) -> Seq<TokenView>
    decreases items, items.len() + 1,
{
    if items.len() == 0 {
        Seq::empty()
    } else {
        written(items[0]) + written_more(items, 1, separator)
    }
}

/// The expressions of `items` from index `from` on, written with
/// `separator` before each.
pub open spec fn written_more(items: Seq<ExprView>, from: int, separator: TokenKind) -> Seq<
    TokenView,
>
    decreases items, items.len() - from,
{
    if 0 <= from < items.len() {
        sign(separator) + written(items[from]) + written_more(items, from + 1, separator)
    } else {
        Seq::empty()
    }
}

/// A declaration, written as `id ':' TypeId ('<-' Expr)?`.
pub open spec fn written_declaration(
    name: Seq<char>,
    typ: Seq<char>,
    init: Option<ExprView>,
) -> Seq<
    TokenView,
>
    decreases init, 2int,
{
    written_typed_name(name, typ) + (match init {
        None => Seq::empty(),
        Some(e) => sign(TokenKind::Assign) + written(e),
    })
}

/// The bindings of `items` from index `from` on, written with a comma
/// before each but the first of all.
pub open spec fn written_bindings(items: Seq<LetBindingView>, from: int) -> Seq<TokenView>
    decreases items, items.len() - from,
{
    if 0 <= from < items.len() {
        (if from == 0 {
            Seq::empty()
        } else {
            sign(TokenKind::Comma)
        }) + written_declaration(items[from].name, items[from].typ, items[from].init)
            + written_bindings(items, from + 1)
    } else {
        Seq::empty()
    }
}

/// The branches of `items` from index `from` on, written with a semicolon
/// before each but the first of all.
pub open spec fn written_branches(items: Seq<CaseBranchView>, from: int) -> Seq<TokenView>
    decreases items, items.len() - from,
{
    if 0 <= from < items.len() {
        (if from == 0 {
            Seq::empty()
        } else {
            sign(TokenKind::Semicolon)
        }) + written_typed_name(items[from].name, items[from].typ) + sign(TokenKind::DoubleArrow)
            + written(items[from].expr) + written_branches(items, from + 1)
    } else {
        Seq::empty()
    }
}

/// The grammar can yield the expression `e`: it holds no `Paren` node, no
/// block without an expression, no `let` without a binding and no `case`
/// without a branch.
#[verifier::opaque]
pub open spec fn readable(e: ExprView) -> bool
    decreases e,
{
    match e {
        ExprView::Assign { name, expr } => readable(*expr),
        ExprView::Dispatch { expr, static_type, method, args } => readable(*expr) && (forall|
            i: int,
        | 0 <= i < args.len() ==> readable(#[trigger] args[i])),
        ExprView::FuncCall { name, args } => forall|i: int|
            0 <= i < args.len() ==> readable(#[trigger] args[i]),
        ExprView::If { cond, then_branch, else_branch } => readable(*cond) && readable(
            *then_branch,
        ) && readable(*else_branch),
        ExprView::While { cond, body } => readable(*cond) && readable(*body),
        ExprView::Block(items) => items.len() >= 1 && (forall|i: int|
            0 <= i < items.len() ==> readable(#[trigger] items[i])),
        ExprView::Let { bindings, body } => bindings.len() >= 1 && readable(*body) && (forall|
            i: int,
        |
            0 <= i < bindings.len() ==> ((#[trigger] bindings[i]).init matches Some(e) ==> readable(
                e,
            ))),
        ExprView::Case { expr, branches } => branches.len() >= 1 && readable(*expr) && (forall|
            i: int,
        | 0 <= i < branches.len() ==> readable((#[trigger] branches[i]).expr)),
        ExprView::New(t) => true,
        ExprView::IsVoid(a) => readable(*a),
        ExprView::Plus(a, b) => readable(*a) && readable(*b),
        ExprView::Minus(a, b) => readable(*a) && readable(*b),
        ExprView::Times(a, b) => readable(*a) && readable(*b),
        ExprView::Divide(a, b) => readable(*a) && readable(*b),
        ExprView::Lt(a, b) => readable(*a) && readable(*b),
        ExprView::Le(a, b) => readable(*a) && readable(*b),
        ExprView::Eq(a, b) => readable(*a) && readable(*b),
        ExprView::Not(a) => readable(*a),
        ExprView::Paren(a) => false,
        ExprView::Id(name) => true,
        ExprView::Integer(value) => true,
        ExprView::String(text) => true,
        ExprView::True => true,
        ExprView::False => true,
    }
}

/// The formals of `items` from index `from` on, written with a comma
/// before each but the first of all.
pub open spec fn written_formals(items: Seq<FormalView>, from: int) -> Seq<TokenView>
    decreases items.len() - from,
{
    if 0 <= from < items.len() {
        (if from == 0 {
            Seq::empty()
        } else {
            sign(TokenKind::Comma)
        }) + written_typed_name(items[from].name, items[from].typ) + written_formals(
            items,
            from + 1,
        )
    } else {
        Seq::empty()
    }
}

/// The method `m`, written as
/// `id '(' formals ')' ':' TypeId '{' Expr '}'`.
pub open spec fn written_method(m: MethodFeatureView) -> Seq<TokenView> {
    named(TokenKind::ObjectIdentifier, m.name) + sign(TokenKind::LeftParen) + written_formals(
        m.formals,
        0,
    ) + sign(TokenKind::RightParen) + sign(TokenKind::Colon) + named(
        TokenKind::TypeIdentifier,
        m.return_type,
    ) + sign(TokenKind::LeftBrace) + written(m.body) + sign(TokenKind::RightBrace)
}

/// The feature `f`, written with the semicolon that closes it.
pub open spec fn written_feature(f: FeatureView) -> Seq<TokenView> {
    (match f {
        FeatureView::Method(m) => written_method(m),
        FeatureView::Attribute(a) => written_declaration(a.name, a.attr_type, a.init),
    }) + sign(TokenKind::Semicolon)
}

/// The features of `items` from index `from` on, written one after the
/// other.
pub open spec fn written_features(items: Seq<FeatureView>, from: int) -> Seq<TokenView>
    decreases items.len() - from,
{
    if 0 <= from < items.len() {
        written_feature(items[from]) + written_features(items, from + 1)
    } else {
        Seq::empty()
    }
}

/// The words that name the parent of a class, where it has one.
pub open spec fn written_parent(parent: Option<Seq<char>>) -> Seq<TokenView> {
    match parent {
        None => Seq::empty(),
        Some(t) => sign(TokenKind::Inherits) + named(TokenKind::TypeIdentifier, t),
    }
}

/// The class `c`, written as
/// `'class' TypeId ('inherits' TypeId)? '{' (Feature ';')* '}' ';'`.
pub open spec fn written_class(c: ClassView) -> Seq<TokenView> {
    sign(TokenKind::Class) + named(TokenKind::TypeIdentifier, c.name) + written_parent(c.parent)
        + sign(TokenKind::LeftBrace) + written_features(c.features, 0) + sign(
        TokenKind::RightBrace,
    ) + sign(TokenKind::Semicolon)
}

/// The classes of `items` from index `from` on, written one after the
/// other.
pub open spec fn written_classes(items: Seq<ClassView>, from: int) -> Seq<TokenView>
    decreases items.len() - from,
{
    if 0 <= from < items.len() {
        written_class(items[from]) + written_classes(items, from + 1)
    } else {
        Seq::empty()
    }
}

/// The program `p`, written as its classes.
pub open spec fn written_program(p: ProgramView) -> Seq<TokenView> {
    written_classes(p.classes, 0)
}

/// The grammar can yield the feature `f`: the expression in it is one
/// that the grammar can yield.
pub open spec fn readable_feature(f: FeatureView) -> bool {
    match f {
        FeatureView::Method(m) => readable(m.body),
        FeatureView::Attribute(a) => a.init matches Some(e) ==> readable(e),
    }
}

/// The grammar can yield the class `c`.
pub open spec fn readable_class(c: ClassView) -> bool {
    forall|i: int| 0 <= i < c.features.len() ==> readable_feature(#[trigger] c.features[i])
}

/// The grammar can yield the program `p`.
pub open spec fn readable_program(p: ProgramView) -> bool {
    forall|i: int| 0 <= i < p.classes.len() ==> readable_class(#[trigger] p.classes[i])
}

} // verus!
