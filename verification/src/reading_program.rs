//! The steps by which the grammar reads classes: what the productions for
//! formals, methods, features and classes yield where their parts are
//! known.

use vstd::prelude::*;
use crate::ast::{ClassView, ExprView, FeatureView, FormalView, MethodFeatureView, ProgramView};
use crate::grammar::{
    as_attribute, comments, far_none, g_class_tail, g_classes, g_feature, g_features, g_formals,
    g_formals_rest, g_method, g_parent, g_program, g_typed_name, is_kind, merge, named_type,
    text_of, Far,
};
use crate::reading::{is_declaration, is_expr};
use crate::token::{TokenKind, TokenView};

verus! {

/// At `pos` stand the formals that follow those in `acc`: with them the
/// formals are `items`, and those that follow take `n` tokens.
#[verifier::opaque]
pub open spec fn are_more_formals(
    toks: Seq<TokenView>,
    pos: int,
    acc: Seq<FormalView>,
    items: Seq<FormalView>,
    n: nat,
) -> bool {
    forall|far: Far|
        (#[trigger] g_formals_rest(toks, pos, acc, far)).value == items && g_formals_rest(
            toks,
            pos,
            acc,
            far,
        ).used == n
}

/// At `pos` stand the formals `items` of a method, which take `n` tokens.
#[verifier::opaque]
pub open spec fn are_formals(
    toks: Seq<TokenView>,
    pos: int,
    items: Seq<FormalView>,
    n: nat,
) -> bool {
    g_formals(toks, pos).value == items && g_formals(toks, pos).used == n
}

/// At `pos` stands the method `m`, which takes `n` tokens.
#[verifier::opaque]
pub open spec fn is_method(toks: Seq<TokenView>, pos: int, m: MethodFeatureView, n: nat) -> bool {
    g_method(toks, pos).out == Some((m, n))
}

/// No method stands at `pos`.
#[verifier::opaque]
pub open spec fn no_method(toks: Seq<TokenView>, pos: int) -> bool {
    g_method(toks, pos).out is None
}

/// At `pos` stands the feature `f`, which takes `n` tokens.
#[verifier::opaque]
pub open spec fn is_feature(toks: Seq<TokenView>, pos: int, f: FeatureView, n: nat) -> bool {
    g_feature(toks, pos).out == Some((f, n))
}

/// No feature stands at `pos`.
#[verifier::opaque]
pub open spec fn no_feature(toks: Seq<TokenView>, pos: int) -> bool {
    g_feature(toks, pos).out is None
}

/// At `pos` stand the features that follow those in `acc`: with them the
/// features are `items`, and those that follow take `n` tokens.
#[verifier::opaque]
pub open spec fn are_more_features(
    toks: Seq<TokenView>,
    pos: int,
    acc: Seq<FeatureView>,
    items: Seq<FeatureView>,
    n: nat,
) -> bool {
    forall|far: Far|
        (#[trigger] g_features(toks, pos, acc, far)).value == items && g_features(
            toks,
            pos,
            acc,
            far,
        ).used == n
}

/// At `pos`, behind the keyword, stands the class `c`, which takes `n`
/// tokens.
#[verifier::opaque]
pub open spec fn is_class_tail(toks: Seq<TokenView>, pos: int, c: ClassView, n: nat) -> bool {
    g_class_tail(toks, pos).out == Some((c, n))
}

/// At `pos` stand the classes that follow those in `acc`: with them the
/// classes are `items`, and those that follow take `n` tokens.
#[verifier::opaque]
pub open spec fn are_more_classes(
    toks: Seq<TokenView>,
    pos: int,
    acc: Seq<ClassView>,
    items: Seq<ClassView>,
    n: nat,
) -> bool {
    forall|far: Far|
        (#[trigger] g_classes(toks, pos, acc, far)).value == items && g_classes(
            toks,
            pos,
            acc,
            far,
        ).used == n
}

/// The formal whose name stands at `pos`.
pub open spec fn formal_at(toks: Seq<TokenView>, pos: int) -> FormalView {
    FormalView { name: text_of(toks, pos), typ: text_of(toks, pos + 2) }
}

/// Where no identifier stands, no formals stand.
pub proof fn lemma_no_formals(toks: Seq<TokenView>, pos: int)
    requires
        !is_kind(toks, pos, TokenKind::ObjectIdentifier),
    ensures
        are_formals(toks, pos, Seq::empty(), 0),
{
    reveal(are_formals);
    reveal(g_formals);
    reveal(g_typed_name);
}

/// A formal and the formals that follow it are the formals.
pub proof fn lemma_first_formal(toks: Seq<TokenView>, pos: int, items: Seq<FormalView>, m: nat)
    requires
        is_kind(toks, pos, TokenKind::ObjectIdentifier),
        is_kind(toks, pos + 1, TokenKind::Colon),
        is_kind(toks, pos + 2, TokenKind::TypeIdentifier),
        are_more_formals(toks, pos + 3, seq![formal_at(toks, pos)], items, m),
    ensures
        are_formals(toks, pos, items, (3 + m) as nat),
{
    reveal(are_formals);
    reveal(are_more_formals);
    reveal(g_formals);
    reveal(g_typed_name);
    reveal(named_type);
    let first = g_typed_name(toks, pos);
    let rest = g_formals_rest(toks, pos + 3, seq![formal_at(toks, pos)], first.far);
    assert(rest.value == items && rest.used == m);
}

/// Where no comma stands, no more formals stand.
pub proof fn lemma_last_formal(toks: Seq<TokenView>, pos: int, acc: Seq<FormalView>)
    requires
        !is_kind(toks, pos, TokenKind::Comma),
    ensures
        are_more_formals(toks, pos, acc, acc, 0),
{
    reveal(are_more_formals);
}

/// A comma, a formal and the formals that follow it are the formals that
/// follow.
pub proof fn lemma_next_formal(
    toks: Seq<TokenView>,
    pos: int,
    acc: Seq<FormalView>,
    items: Seq<FormalView>,
    m: nat,
)
    requires
        is_kind(toks, pos, TokenKind::Comma),
        is_kind(toks, pos + 1, TokenKind::ObjectIdentifier),
        is_kind(toks, pos + 2, TokenKind::Colon),
        is_kind(toks, pos + 3, TokenKind::TypeIdentifier),
        are_more_formals(toks, pos + 4, acc.push(formal_at(toks, pos + 1)), items, m),
    ensures
        are_more_formals(toks, pos, acc, items, (4 + m) as nat),
{
    reveal(are_more_formals);
    reveal(g_typed_name);
    reveal(named_type);
    assert forall|far: Far|
        (#[trigger] g_formals_rest(toks, pos, acc, far)).value == items && g_formals_rest(
            toks,
            pos,
            acc,
            far,
        ).used == 4 + m by {
        let next = g_typed_name(toks, pos + 1);
        let rest = g_formals_rest(
            toks,
            pos + 4,
            acc.push(formal_at(toks, pos + 1)),
            merge(far, next.far),
        );
        assert(rest.value == items && rest.used == m);
    }
}

/// A name, the formals between parentheses, a colon, the name of a type
/// and an expression between braces are a method.
pub proof fn lemma_method(
    toks: Seq<TokenView>,
    pos: int,
    formals: Seq<FormalView>,
    n1: nat,
    body: ExprView,
    n2: nat,
)
    requires
        is_kind(toks, pos, TokenKind::ObjectIdentifier),
        is_kind(toks, pos + 1, TokenKind::LeftParen),
        are_formals(toks, pos + 2, formals, n1),
        is_kind(toks, pos + 2 + n1, TokenKind::RightParen),
        is_kind(toks, pos + 2 + n1 + 1, TokenKind::Colon),
        is_kind(toks, pos + 2 + n1 + 2, TokenKind::TypeIdentifier),
        is_kind(toks, pos + 2 + n1 + 3, TokenKind::LeftBrace),
        is_expr(toks, pos + 2 + n1 + 4, body, n2),
        is_kind(toks, pos + 2 + n1 + 4 + n2, TokenKind::RightBrace),
    ensures
        is_method(
            toks,
            pos,
            MethodFeatureView {
                name: text_of(toks, pos),
                formals,
                return_type: text_of(toks, pos + 2 + n1 + 2),
                body,
            },
            (2 + n1 + 4 + n2 + 1) as nat,
        ),
{
    reveal(is_method);
    reveal(are_formals);
    reveal(is_expr);
    reveal(g_method);
    reveal(named_type);
    reveal_with_fuel(comments, 1);
}

/// Where an identifier stands that no parenthesis follows, no method
/// stands.
pub proof fn lemma_no_method_at_name(toks: Seq<TokenView>, pos: int)
    requires
        is_kind(toks, pos, TokenKind::ObjectIdentifier),
        !is_kind(toks, pos + 1, TokenKind::LeftParen),
    ensures
        no_method(toks, pos),
{
    reveal(no_method);
    reveal(g_method);
    reveal_with_fuel(comments, 1);
}

/// Where neither a comment nor an identifier stands, no feature stands.
pub proof fn lemma_no_feature(toks: Seq<TokenView>, pos: int)
    requires
        !is_kind(toks, pos, TokenKind::Comment),
        !is_kind(toks, pos, TokenKind::ObjectIdentifier),
    ensures
        no_feature(toks, pos),
{
    reveal(no_feature);
    reveal(g_feature);
    reveal(g_method);
    reveal(g_typed_name);
    reveal_with_fuel(comments, 1);
}

/// A method is a feature.
pub proof fn lemma_method_feature(toks: Seq<TokenView>, pos: int, m: MethodFeatureView, n: nat)
    requires
        is_method(toks, pos, m, n),
    ensures
        is_feature(toks, pos, FeatureView::Method(m), n),
{
    reveal(is_method);
    reveal(is_feature);
    reveal(g_feature);
}

/// A declaration where no method stands is a feature.
pub proof fn lemma_attribute_feature(
    toks: Seq<TokenView>,
    pos: int,
    d: (Seq<char>, Seq<char>, Option<ExprView>),
    n: nat,
)
    requires
        no_method(toks, pos),
        is_declaration(toks, pos, d, n),
    ensures
        is_feature(toks, pos, FeatureView::Attribute(as_attribute(d)), n),
{
    reveal(no_method);
    reveal(is_declaration);
    reveal(is_feature);
    reveal(g_feature);
}

/// Where no feature stands, no more features stand.
pub proof fn lemma_last_feature(toks: Seq<TokenView>, pos: int, acc: Seq<FeatureView>)
    requires
        no_feature(toks, pos),
    ensures
        are_more_features(toks, pos, acc, acc, 0),
{
    reveal(no_feature);
    reveal(are_more_features);
}

/// A feature, a semicolon and the features that follow it are the
/// features that follow.
pub proof fn lemma_next_feature(
    toks: Seq<TokenView>,
    pos: int,
    acc: Seq<FeatureView>,
    f: FeatureView,
    n: nat,
    items: Seq<FeatureView>,
    m: nat,
)
    requires
        is_feature(toks, pos, f, n),
        is_kind(toks, pos + n, TokenKind::Semicolon),
        are_more_features(toks, pos + n + 1, acc.push(f), items, m),
    ensures
        are_more_features(toks, pos, acc, items, (n + 1 + m) as nat),
{
    reveal(is_feature);
    reveal(are_more_features);
    assert forall|far: Far|
        (#[trigger] g_features(toks, pos, acc, far)).value == items && g_features(
            toks,
            pos,
            acc,
            far,
        ).used == n + 1 + m by {
        let next = g_feature(toks, pos);
        let rest = g_features(toks, pos + n + 1, acc.push(f), merge(far, next.far));
        assert(rest.value == items && rest.used == m);
    }
}

/// The name of a class, the features between braces and a semicolon are a
/// class without a parent.
pub proof fn lemma_class_without_parent(
    toks: Seq<TokenView>,
    pos: int,
    features: Seq<FeatureView>,
    m: nat,
)
    requires
        is_kind(toks, pos, TokenKind::TypeIdentifier),
        is_kind(toks, pos + 1, TokenKind::LeftBrace),
        are_more_features(toks, pos + 2, Seq::empty(), features, m),
        is_kind(toks, pos + 2 + m, TokenKind::RightBrace),
        is_kind(toks, pos + 2 + m + 1, TokenKind::Semicolon),
    ensures
        is_class_tail(
            toks,
            pos,
            ClassView { name: text_of(toks, pos), parent: None, features },
            (2 + m + 2) as nat,
        ),
{
    reveal(is_class_tail);
    reveal(are_more_features);
    reveal(g_class_tail);
    reveal(g_parent);
    reveal(named_type);
    let parent = g_parent(toks, pos + 1);
    let rest = g_features(toks, pos + 2, Seq::empty(), parent.far);
    assert(rest.value == features && rest.used == m);
}

/// The name of a class, `inherits`, the name of its parent, the features
/// between braces and a semicolon are a class with a parent.
pub proof fn lemma_class_with_parent(
    toks: Seq<TokenView>,
    pos: int,
    features: Seq<FeatureView>,
    m: nat,
)
    requires
        is_kind(toks, pos, TokenKind::TypeIdentifier),
        is_kind(toks, pos + 1, TokenKind::Inherits),
        is_kind(toks, pos + 2, TokenKind::TypeIdentifier),
        is_kind(toks, pos + 3, TokenKind::LeftBrace),
        are_more_features(toks, pos + 4, Seq::empty(), features, m),
        is_kind(toks, pos + 4 + m, TokenKind::RightBrace),
        is_kind(toks, pos + 4 + m + 1, TokenKind::Semicolon),
    ensures
        is_class_tail(
            toks,
            pos,
            ClassView {
                name: text_of(toks, pos),
                parent: Some(text_of(toks, pos + 2)),
                features,
            },
            (4 + m + 2) as nat,
        ),
{
    reveal(is_class_tail);
    reveal(are_more_features);
    reveal(g_class_tail);
    reveal(g_parent);
    reveal(named_type);
    let parent = g_parent(toks, pos + 1);
    let rest = g_features(toks, pos + 4, Seq::empty(), parent.far);
    assert(rest.value == features && rest.used == m);
}

/// Where neither a comment nor `class` stands, no more classes stand.
pub proof fn lemma_last_class(toks: Seq<TokenView>, pos: int, acc: Seq<ClassView>)
    requires
        !is_kind(toks, pos, TokenKind::Comment),
        !is_kind(toks, pos, TokenKind::Class),
    ensures
        are_more_classes(toks, pos, acc, acc, 0),
{
    reveal(are_more_classes);
    reveal_with_fuel(comments, 1);
}

/// `class`, a class and the classes that follow it are the classes that
/// follow.
pub proof fn lemma_next_class(
    toks: Seq<TokenView>,
    pos: int,
    acc: Seq<ClassView>,
    c: ClassView,
    n: nat,
    items: Seq<ClassView>,
    m: nat,
)
    requires
        is_kind(toks, pos, TokenKind::Class),
        is_class_tail(toks, pos + 1, c, n),
        are_more_classes(toks, pos + 1 + n, acc.push(c), items, m),
    ensures
        are_more_classes(toks, pos, acc, items, (1 + n + m) as nat),
{
    reveal(is_class_tail);
    reveal(are_more_classes);
    reveal_with_fuel(comments, 1);
    assert forall|far: Far|
        (#[trigger] g_classes(toks, pos, acc, far)).value == items && g_classes(
            toks,
            pos,
            acc,
            far,
        ).used == 1 + n + m by {
        let next = g_class_tail(toks, pos + 1);
        let rest = g_classes(toks, pos + 1 + n, acc.push(c), merge(far, next.far));
        assert(rest.value == items && rest.used == m);
    }
}

/// Classes that take all tokens are a program.
pub proof fn lemma_program(toks: Seq<TokenView>, items: Seq<ClassView>)
    requires
        are_more_classes(toks, 0, Seq::empty(), items, toks.len()),
    ensures
        g_program(toks) == Ok::<ProgramView, Far>(ProgramView { classes: items }),
{
    reveal(are_more_classes);
    let all = g_classes(toks, 0, Seq::empty(), far_none());
    assert(all.value == items && all.used == toks.len());
}

} // verus!
