//! Parsing a program that was written yields the program: the classes of
//! the tree, their features and the formals of their methods stand in
//! what was written in their order, and the grammar reads them in that
//! order.

use vstd::prelude::*;
use crate::ast::{ClassView, FeatureView, FormalView, MethodFeatureView, ProgramView};
use crate::grammar::{as_attribute, g_program, is_kind, Far};
use crate::readback::{
    lemma_holds_typed_name, lemma_kind_is_not, lemma_reads, lemma_reads_declaration, lemma_use_expr,
    reads,
};
use crate::reading::{holds, lemma_holds_at, lemma_holds_named, lemma_holds_sign, lemma_kind_stops};
use crate::reading_program::{
    are_formals, are_more_classes, are_more_features, are_more_formals, formal_at, is_class_tail,
    is_feature, is_method, lemma_attribute_feature, lemma_class_with_parent,
    lemma_class_without_parent, lemma_first_formal, lemma_last_class, lemma_last_feature,
    lemma_last_formal, lemma_method, lemma_method_feature, lemma_next_class, lemma_next_feature,
    lemma_next_formal, lemma_no_feature, lemma_no_formals, lemma_no_method_at_name, lemma_program,
};
use crate::token::{TokenKind, TokenView};
use crate::written::{
    named, readable_class, readable_feature, readable_program, sign, written, written_class,
    written_classes, written_declaration, written_feature, written_features, written_formals,
    written_method, written_parent, written_program, written_typed_name,
};

verus! {

/// The expression of the feature `f` is read back wherever it was
/// written.
pub open spec fn reads_feature(toks: Seq<TokenView>, f: FeatureView) -> bool {
    match f {
        FeatureView::Method(m) => reads(toks, m.body),
        FeatureView::Attribute(a) => a.init matches Some(e) ==> reads(toks, e),
    }
}

/// The expressions of all of `items` are read back.
pub open spec fn reads_features(toks: Seq<TokenView>, items: Seq<FeatureView>) -> bool {
    forall|i: int| 0 <= i < items.len() ==> reads_feature(toks, #[trigger] items[i])
}

/// The expressions of all classes of `items` are read back.
pub open spec fn reads_classes(toks: Seq<TokenView>, items: Seq<ClassView>) -> bool {
    forall|i: int| 0 <= i < items.len() ==> reads_features(toks, (#[trigger] items[i]).features)
}

/// Parsing the formals that were written from index `from` on yields
/// them, added to those before them.
proof fn lemma_reads_more_formals(toks: Seq<TokenView>, pos: int, items: Seq<FormalView>, from: int)
    requires
        1 <= from <= items.len(),
        holds(toks, pos, written_formals(items, from)),
        is_kind(toks, pos + written_formals(items, from).len(), TokenKind::RightParen),
    ensures
        are_more_formals(toks, pos, items.take(from), items, written_formals(items, from).len()),
    decreases items.len() - from,
{
    if from < items.len() {
        let item = items[from];
        let one = written_typed_name(item.name, item.typ);
        let more = written_formals(items, from + 1);
        lemma_holds_at(toks, pos, sign(TokenKind::Comma) + one, more, pos + 4);
        lemma_holds_at(toks, pos, sign(TokenKind::Comma), one, pos + 1);
        lemma_holds_sign(toks, pos, TokenKind::Comma);
        lemma_holds_typed_name(toks, pos + 1, item.name, item.typ);
        assert(formal_at(toks, pos + 1) == item);
        assert(items.take(from).push(item) =~= items.take(from + 1));
        lemma_reads_more_formals(toks, pos + 4, items, from + 1);
        lemma_next_formal(toks, pos, items.take(from), items, more.len());
    } else {
        assert(items.take(from) =~= items);
        lemma_kind_is_not(toks, pos, TokenKind::RightParen, TokenKind::Comma);
        lemma_last_formal(toks, pos, items);
    }
}

/// Parsing the formals that were written yields them.
proof fn lemma_reads_formals(toks: Seq<TokenView>, pos: int, items: Seq<FormalView>)
    requires
        holds(toks, pos, written_formals(items, 0)),
        is_kind(toks, pos + written_formals(items, 0).len(), TokenKind::RightParen),
    ensures
        are_formals(toks, pos, items, written_formals(items, 0).len()),
{
    if items.len() == 0 {
        lemma_kind_is_not(toks, pos, TokenKind::RightParen, TokenKind::ObjectIdentifier);
        lemma_no_formals(toks, pos);
        assert(items =~= Seq::<FormalView>::empty());
    } else {
        let item = items[0];
        let one = written_typed_name(item.name, item.typ);
        let more = written_formals(items, 1);
        assert(written_formals(items, 0) =~= one + more);
        lemma_holds_at(toks, pos, one, more, pos + 3);
        lemma_holds_typed_name(toks, pos, item.name, item.typ);
        assert(formal_at(toks, pos) == item);
        assert(seq![item] =~= items.take(1));
        lemma_reads_more_formals(toks, pos + 3, items, 1);
        lemma_first_formal(toks, pos, items, more.len());
    }
}

/// Parsing a method that was written yields the method.
proof fn lemma_reads_method(toks: Seq<TokenView>, pos: int, m: MethodFeatureView)
    requires
        reads(toks, m.body),
        holds(toks, pos, written_method(m)),
    ensures
        is_method(toks, pos, m, written_method(m).len()),
{
    let formals = written_formals(m.formals, 0);
    let q = pos + 2 + formals.len();
    let end = q + 4 + written(m.body).len();
    let a0 = named(TokenKind::ObjectIdentifier, m.name);
    let a1 = a0 + sign(TokenKind::LeftParen);
    let a2 = a1 + formals;
    let a3 = a2 + sign(TokenKind::RightParen);
    let a4 = a3 + sign(TokenKind::Colon);
    let a5 = a4 + named(TokenKind::TypeIdentifier, m.return_type);
    let a6 = a5 + sign(TokenKind::LeftBrace);
    let a7 = a6 + written(m.body);
    lemma_holds_at(toks, pos, a7, sign(TokenKind::RightBrace), end);
    lemma_holds_at(toks, pos, a6, written(m.body), q + 4);
    lemma_holds_at(toks, pos, a5, sign(TokenKind::LeftBrace), q + 3);
    lemma_holds_at(toks, pos, a4, named(TokenKind::TypeIdentifier, m.return_type), q + 2);
    lemma_holds_at(toks, pos, a3, sign(TokenKind::Colon), q + 1);
    lemma_holds_at(toks, pos, a2, sign(TokenKind::RightParen), q);
    lemma_holds_at(toks, pos, a1, formals, pos + 2);
    lemma_holds_at(toks, pos, a0, sign(TokenKind::LeftParen), pos + 1);
    lemma_holds_named(toks, pos, TokenKind::ObjectIdentifier, m.name);
    lemma_holds_sign(toks, pos + 1, TokenKind::LeftParen);
    lemma_holds_sign(toks, q, TokenKind::RightParen);
    lemma_holds_sign(toks, q + 1, TokenKind::Colon);
    lemma_holds_named(toks, q + 2, TokenKind::TypeIdentifier, m.return_type);
    lemma_holds_sign(toks, q + 3, TokenKind::LeftBrace);
    lemma_holds_sign(toks, end, TokenKind::RightBrace);
    lemma_reads_formals(toks, pos + 2, m.formals);
    lemma_kind_stops(toks, end, TokenKind::RightBrace);
    lemma_use_expr(toks, q + 4, m.body);
    lemma_method(toks, pos, m.formals, formals.len(), m.body, written(m.body).len());
}

/// Parsing a feature that was written yields the feature, and the
/// semicolon that closes it stands behind it.
proof fn lemma_reads_feature(toks: Seq<TokenView>, pos: int, f: FeatureView)
    requires
        reads_feature(toks, f),
        holds(toks, pos, written_feature(f)),
    ensures
        written_feature(f).len() >= 1,
        is_feature(toks, pos, f, (written_feature(f).len() - 1) as nat),
        is_kind(toks, pos + written_feature(f).len() - 1, TokenKind::Semicolon),
{
    match f {
        FeatureView::Method(m) => {
            let one = written_method(m);
            lemma_holds_at(toks, pos, one, sign(TokenKind::Semicolon), pos + one.len());
            lemma_holds_sign(toks, pos + one.len(), TokenKind::Semicolon);
            lemma_reads_method(toks, pos, m);
            lemma_method_feature(toks, pos, m, one.len());
        },
        FeatureView::Attribute(a) => {
            let one = written_declaration(a.name, a.attr_type, a.init);
            let end = pos + one.len();
            lemma_holds_at(toks, pos, one, sign(TokenKind::Semicolon), end);
            lemma_holds_sign(toks, end, TokenKind::Semicolon);
            lemma_kind_stops(toks, end, TokenKind::Semicolon);
            lemma_reads_declaration(toks, pos, a.name, a.attr_type, a.init);
            lemma_kind_is_not(toks, pos + 1, TokenKind::Colon, TokenKind::LeftParen);
            lemma_no_method_at_name(toks, pos);
            let d = (a.name, a.attr_type, a.init);
            assert(as_attribute(d) == a);
            lemma_attribute_feature(toks, pos, d, one.len());
        },
    }
}

/// Parsing the features that were written from index `from` on yields
/// them, added to those before them.
proof fn lemma_reads_more_features(
    toks: Seq<TokenView>,
    pos: int,
    items: Seq<FeatureView>,
    from: int,
)
    requires
        reads_features(toks, items),
        0 <= from <= items.len(),
        holds(toks, pos, written_features(items, from)),
        is_kind(toks, pos + written_features(items, from).len(), TokenKind::RightBrace),
    ensures
        are_more_features(toks, pos, items.take(from), items, written_features(items, from).len()),
    decreases items.len() - from,
{
    if from < items.len() {
        let item = items[from];
        let one = written_feature(item);
        let more = written_features(items, from + 1);
        lemma_holds_at(toks, pos, one, more, pos + one.len());
        lemma_reads_feature(toks, pos, item);
        assert(items.take(from).push(item) =~= items.take(from + 1));
        lemma_reads_more_features(toks, pos + one.len(), items, from + 1);
        lemma_next_feature(
            toks,
            pos,
            items.take(from),
            item,
            (one.len() - 1) as nat,
            items,
            more.len(),
        );
    } else {
        assert(items.take(from) =~= items);
        lemma_kind_is_not(toks, pos, TokenKind::RightBrace, TokenKind::Comment);
        lemma_kind_is_not(toks, pos, TokenKind::RightBrace, TokenKind::ObjectIdentifier);
        lemma_no_feature(toks, pos);
        lemma_last_feature(toks, pos, items);
    }
}

/// Parsing a class that was written yields the class.
proof fn lemma_reads_class(toks: Seq<TokenView>, pos: int, c: ClassView)
    requires
        reads_features(toks, c.features),
        holds(toks, pos, written_class(c)),
    ensures
        written_class(c).len() >= 1,
        is_kind(toks, pos, TokenKind::Class),
        is_class_tail(toks, pos + 1, c, (written_class(c).len() - 1) as nat),
{
    let parent = written_parent(c.parent);
    let features = written_features(c.features, 0);
    let p = pos + 2 + parent.len();
    let q = p + 1 + features.len();
    let a0 = sign(TokenKind::Class);
    let a1 = a0 + named(TokenKind::TypeIdentifier, c.name);
    let a2 = a1 + parent;
    let a3 = a2 + sign(TokenKind::LeftBrace);
    let a4 = a3 + features;
    let a5 = a4 + sign(TokenKind::RightBrace);
    lemma_holds_at(toks, pos, a5, sign(TokenKind::Semicolon), q + 1);
    lemma_holds_at(toks, pos, a4, sign(TokenKind::RightBrace), q);
    lemma_holds_at(toks, pos, a3, features, p + 1);
    lemma_holds_at(toks, pos, a2, sign(TokenKind::LeftBrace), p);
    lemma_holds_at(toks, pos, a1, parent, pos + 2);
    lemma_holds_at(toks, pos, a0, named(TokenKind::TypeIdentifier, c.name), pos + 1);
    lemma_holds_sign(toks, pos, TokenKind::Class);
    lemma_holds_named(toks, pos + 1, TokenKind::TypeIdentifier, c.name);
    lemma_holds_sign(toks, p, TokenKind::LeftBrace);
    lemma_holds_sign(toks, q, TokenKind::RightBrace);
    lemma_holds_sign(toks, q + 1, TokenKind::Semicolon);
    assert(c.features.take(0) =~= Seq::<FeatureView>::empty());
    lemma_reads_more_features(toks, p + 1, c.features, 0);
    match c.parent {
        None => {
            lemma_class_without_parent(toks, pos + 1, c.features, features.len());
        },
        Some(t) => {
            lemma_holds_at(
                toks,
                pos + 2,
                sign(TokenKind::Inherits),
                named(TokenKind::TypeIdentifier, t),
                pos + 3,
            );
            lemma_holds_sign(toks, pos + 2, TokenKind::Inherits);
            lemma_holds_named(toks, pos + 3, TokenKind::TypeIdentifier, t);
            lemma_class_with_parent(toks, pos + 1, c.features, features.len());
        },
    }
}

/// Parsing the classes that were written from index `from` on, up to the
/// end of the tokens, yields them, added to those before them.
proof fn lemma_reads_more_classes(toks: Seq<TokenView>, pos: int, items: Seq<ClassView>, from: int)
    requires
        reads_classes(toks, items),
        0 <= from <= items.len(),
        holds(toks, pos, written_classes(items, from)),
        pos + written_classes(items, from).len() == toks.len(),
    ensures
        are_more_classes(toks, pos, items.take(from), items, written_classes(items, from).len()),
    decreases items.len() - from,
{
    if from < items.len() {
        let item = items[from];
        let one = written_class(item);
        let more = written_classes(items, from + 1);
        lemma_holds_at(toks, pos, one, more, pos + one.len());
        lemma_reads_class(toks, pos, item);
        assert(items.take(from).push(item) =~= items.take(from + 1));
        lemma_reads_more_classes(toks, pos + one.len(), items, from + 1);
        lemma_next_class(
            toks,
            pos,
            items.take(from),
            item,
            (one.len() - 1) as nat,
            items,
            more.len(),
        );
    } else {
        assert(items.take(from) =~= items);
        lemma_last_class(toks, pos, items);
    }
}

/// The expressions of a program that the grammar can yield are read back
/// wherever they were written.
proof fn lemma_reads_program(toks: Seq<TokenView>, p: ProgramView)
    requires
        readable_program(p),
    ensures
        reads_classes(toks, p.classes),
{
    assert forall|i: int| 0 <= i < p.classes.len() implies reads_features(
        toks,
        (#[trigger] p.classes[i]).features,
    ) by {
        let c = p.classes[i];
        assert(readable_class(c));
        assert forall|j: int| 0 <= j < c.features.len() implies reads_feature(
            toks,
            #[trigger] c.features[j],
        ) by {
            assert(readable_feature(c.features[j]));
            match c.features[j] {
                FeatureView::Method(m) => {
                    lemma_reads(toks, m.body);
                },
                FeatureView::Attribute(a) => {
                    match a.init {
                        Some(e) => {
                            lemma_reads(toks, e);
                        },
                        None => {},
                    }
                },
            }
        }
    }
}

/// Parsing a program that was written yields the program, for every
/// program that the grammar can yield: its classes in their order, the
/// features of each class in their order, and the formals of each method
/// in their order.
pub proof fn lemma_program_reads_back(p: ProgramView)
    requires
        readable_program(p),
    ensures
        g_program(written_program(p)) == Ok::<ProgramView, Far>(p),
{
    let toks = written_program(p);
    assert(holds(toks, 0, toks)) by {
        reveal(holds);
    }
    lemma_reads_program(toks, p);
    assert(p.classes.take(0) =~= Seq::<ClassView>::empty());
    lemma_reads_more_classes(toks, 0, p.classes, 0);
    lemma_program(toks, p.classes);
}

} // verus!
