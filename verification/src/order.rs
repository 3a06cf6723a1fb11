//! The tree keeps the order of the source: the classes of a program, the
//! features of a class and the formals of a method stand in the tree in
//! the order in which they stand in the token sequence.

use vstd::prelude::*;
use crate::ast::{ClassView, FeatureView, FormalView};
use crate::grammar::{
    as_formal, comments, far_none, g_class_tail, g_classes, g_feature, g_features, g_formals,
    g_formals_rest, g_method, g_parent, g_program, g_typed_name, is_kind, merge, remaining, Far,
};
use crate::token::{TokenKind, TokenView};

verus! {

/// The positions of the `class` keywords of the classes that are read from
/// `pos` on, in the order of the token sequence.
pub open spec fn class_starts(toks: Seq<TokenView>, pos: int) -> Seq<int>
    decreases remaining(toks, pos),
{
    let p = pos + comments(toks, pos);
    if is_kind(toks, p, TokenKind::Class) {
        match g_class_tail(toks, p + 1).out {
            None => Seq::empty(),
            Some((_, n)) => seq![p] + class_starts(toks, p + 1 + n),
        }
    } else {
        Seq::empty()
    }
}

/// The positions at which the features start that are read from `pos` on,
/// in the order of the token sequence.
pub open spec fn feature_starts(toks: Seq<TokenView>, pos: int) -> Seq<int>
    decreases remaining(toks, pos),
{
    match g_feature(toks, pos).out {
        None => Seq::empty(),
        Some((_, n)) => {
            if is_kind(toks, pos + n, TokenKind::Semicolon) {
                seq![pos] + feature_starts(toks, pos + n + 1)
            } else {
                Seq::empty()
            }
        },
    }
}

/// The class whose keyword stands at `at`.
pub open spec fn class_at(toks: Seq<TokenView>, at: int) -> ClassView {
    g_class_tail(toks, at + 1).value()
}

/// The feature that starts at `at`.
pub open spec fn feature_at(toks: Seq<TokenView>, at: int) -> FeatureView {
    g_feature(toks, at).value()
}

/// The formal that starts at `at`.
pub open spec fn formal_at(toks: Seq<TokenView>, at: int) -> FormalView {
    as_formal(g_typed_name(toks, at).value())
}

/// The items `items` are what `item_at` finds at the positions `starts`,
/// one after the other, and the positions rise from `from` on.
pub open spec fn in_order<T>(
    items: Seq<T>,
    starts: Seq<int>,
    from: int,
    item_at: spec_fn(int) -> T,
) -> bool {
    &&& items.len() == starts.len()
    &&& forall|i: int| 0 <= i < starts.len() ==> items[i] == item_at(#[trigger] starts[i])
    &&& forall|i: int| 0 <= i < starts.len() ==> from <= #[trigger] starts[i]
    &&& forall|i: int, j: int| 0 <= i < j < starts.len() ==> starts[i] < starts[j]
}

/// Where items are added one at a time, the first at `p` and the others at
/// the rising positions `rest` behind it, all of them stand in order.
proof fn lemma_first_then_rest<T>(
    all: Seq<T>,
    acc: Seq<T>,
    first: T,
    p: int,
    rest: Seq<int>,
    from: int,
    next: int,
    item_at: spec_fn(int) -> T,
)
    requires
        from <= p < next,
        first == item_at(p),
        all.len() == acc.len() + 1 + rest.len(),
        all.take(acc.len() as int + 1) == acc.push(first),
        in_order(all.skip(acc.len() as int + 1), rest, next, item_at),
    ensures
        all.take(acc.len() as int) == acc,
        in_order(all.skip(acc.len() as int), seq![p] + rest, from, item_at),
{
    let longer = acc.push(first);
    let starts = seq![p] + rest;
    assert(all.take(acc.len() as int) =~= acc) by {
        assert(forall|i: int| 0 <= i < acc.len() ==> all[i] == all.take(acc.len() as int + 1)[i]);
    }
    let found = all.skip(acc.len() as int);
    let found_rest = all.skip(acc.len() as int + 1);
    assert(found[0] == all.take(acc.len() as int + 1)[acc.len() as int]);
    assert(forall|i: int| 1 <= i < starts.len() ==> found[i] == found_rest[i - 1]);
    assert(forall|i: int| 1 <= i < starts.len() ==> starts[i] == rest[i - 1]);
    assert forall|i: int| 0 <= i < starts.len() implies found[i] == item_at(
        #[trigger] starts[i],
    ) by {
        if i > 0 {
            assert(found_rest[i - 1] == item_at(rest[i - 1]));
        }
    }
    assert forall|i: int| 0 <= i < starts.len() implies from <= #[trigger] starts[i] by {
        if i > 0 {
            assert(next <= rest[i - 1]);
        }
    }
    assert forall|i: int, j: int| 0 <= i < j < starts.len() implies starts[i] < starts[j] by {
        if i > 0 {
            assert(rest[i - 1] < rest[j - 1]);
        } else {
            assert(next <= rest[j - 1]);
        }
    }
}

/// The classes read from `pos` on are added to those read before, in the
/// order of their keywords in the token sequence.
pub proof fn lemma_classes_keep_order(toks: Seq<TokenView>, pos: int, acc: Seq<ClassView>, far: Far)
    requires
        0 <= pos,
    ensures
        g_classes(toks, pos, acc, far).value.len() == acc.len() + class_starts(toks, pos).len(),
        g_classes(toks, pos, acc, far).value.take(acc.len() as int) == acc,
        in_order(
            g_classes(toks, pos, acc, far).value.skip(acc.len() as int),
            class_starts(toks, pos),
            pos,
            |at: int| class_at(toks, at),
        ),
    decreases remaining(toks, pos),
{
    let p = pos + comments(toks, pos);
    let all = g_classes(toks, pos, acc, far).value;
    let item_at = |at: int| class_at(toks, at);
    if is_kind(toks, p, TokenKind::Class) {
        let class = g_class_tail(toks, p + 1);
        match class.out {
            None => {
                assert(all.take(acc.len() as int) =~= acc);
                assert(all.skip(acc.len() as int) =~= Seq::empty());
            },
            Some((c, n)) => {
                let far2 = merge(far, class.far);
                lemma_classes_keep_order(toks, p + 1 + n, acc.push(c), far2);
                let rest = class_starts(toks, p + 1 + n);
                assert(class_starts(toks, pos) == seq![p] + rest);
                assert(c == item_at(p));
                lemma_in_order_same(
                    all.skip(acc.len() as int + 1),
                    rest,
                    p + 1 + n,
                    |at: int| class_at(toks, at),
                    item_at,
                );
                lemma_first_then_rest(all, acc, c, p, rest, pos, p + 1 + n, item_at);
                lemma_in_order_same(
                    all.skip(acc.len() as int),
                    seq![p] + rest,
                    pos,
                    item_at,
                    |at: int| class_at(toks, at),
                );
            },
        }
    } else {
        assert(all.take(acc.len() as int) =~= acc);
        assert(all.skip(acc.len() as int) =~= Seq::empty());
    }
}

/// Two functions that find the same items at all positions agree on what
/// stands in order.
proof fn lemma_in_order_same<T>(
    items: Seq<T>,
    starts: Seq<int>,
    from: int,
    f: spec_fn(int) -> T,
    g: spec_fn(int) -> T,
)
    requires
        in_order(items, starts, from, f),
        forall|at: int| #[trigger] f(at) == g(at),
    ensures
        in_order(items, starts, from, g),
{
}

/// The classes of a program stand in its tree in the order in which they
/// stand in the token sequence: the first class of the tree is the one
/// whose keyword comes first, and so on.
pub proof fn lemma_program_keeps_class_order(toks: Seq<TokenView>)
    requires
        g_program(toks) is Ok,
    ensures
        in_order(
            g_program(toks)->Ok_0.classes,
            class_starts(toks, 0),
            0,
            |at: int| class_at(toks, at),
        ),
{
    lemma_classes_keep_order(toks, 0, Seq::empty(), far_none());
    let all = g_classes(toks, 0, Seq::empty(), far_none()).value;
    assert(all.skip(0) =~= all);
}

/// The features read from `pos` on are added to those read before, in the
/// order in which they start in the token sequence.
pub proof fn lemma_features_keep_order(
    toks: Seq<TokenView>,
    pos: int,
    acc: Seq<FeatureView>,
    far: Far,
)
    requires
        0 <= pos,
    ensures
        g_features(toks, pos, acc, far).value.len() == acc.len() + feature_starts(toks, pos).len(),
        g_features(toks, pos, acc, far).value.take(acc.len() as int) == acc,
        in_order(
            g_features(toks, pos, acc, far).value.skip(acc.len() as int),
            feature_starts(toks, pos),
            pos,
            |at: int| feature_at(toks, at),
        ),
    decreases remaining(toks, pos),
{
    let all = g_features(toks, pos, acc, far).value;
    let item_at = |at: int| feature_at(toks, at);
    let next = g_feature(toks, pos);
    match next.out {
        Some((f, n)) if is_kind(toks, pos + n, TokenKind::Semicolon) => {
            let far2 = merge(far, next.far);
            lemma_features_keep_order(toks, pos + n + 1, acc.push(f), far2);
            let rest = feature_starts(toks, pos + n + 1);
            assert(feature_starts(toks, pos) == seq![pos] + rest);
            assert(f == item_at(pos));
            lemma_in_order_same(
                all.skip(acc.len() as int + 1),
                rest,
                pos + n + 1,
                |at: int| feature_at(toks, at),
                item_at,
            );
            lemma_first_then_rest(all, acc, f, pos, rest, pos, pos + n + 1, item_at);
            lemma_in_order_same(
                all.skip(acc.len() as int),
                seq![pos] + rest,
                pos,
                item_at,
                |at: int| feature_at(toks, at),
            );
        },
        _ => {
            assert(all.take(acc.len() as int) =~= acc);
            assert(all.skip(acc.len() as int) =~= Seq::empty());
        },
    }
}

/// The position at which the features of a class start whose name stands
/// at `pos`: behind the name, the parent if one is named, and the brace.
pub open spec fn features_begin(toks: Seq<TokenView>, pos: int) -> int {
    pos + 1 + g_parent(toks, pos + 1).used + 1
}

/// The features of a class stand in its tree in the order in which they
/// stand in the token sequence.
pub proof fn lemma_class_keeps_feature_order(toks: Seq<TokenView>, pos: int)
    requires
        0 <= pos,
        g_class_tail(toks, pos).out is Some,
    ensures
        in_order(
            g_class_tail(toks, pos).value().features,
            feature_starts(toks, features_begin(toks, pos)),
            features_begin(toks, pos),
            |at: int| feature_at(toks, at),
        ),
{
    reveal(g_class_tail);
    let begin = features_begin(toks, pos);
    let far = g_parent(toks, pos + 1).far;
    lemma_features_keep_order(toks, begin, Seq::empty(), far);
    let all = g_features(toks, begin, Seq::empty(), far).value;
    assert(all.skip(0) =~= all);
}

/// The positions at which the formals start that follow the comma at
/// `pos`.
pub open spec fn later_formal_starts(toks: Seq<TokenView>, pos: int) -> Seq<int>
    decreases remaining(toks, pos),
{
    if is_kind(toks, pos, TokenKind::Comma) && g_typed_name(toks, pos + 1).out is Some {
        seq![pos + 1] + later_formal_starts(toks, pos + 4)
    } else {
        Seq::empty()
    }
}

/// The positions at which the formals start that are read from `pos` on.
pub open spec fn formal_starts(toks: Seq<TokenView>, pos: int) -> Seq<int> {
    if g_typed_name(toks, pos).out is Some {
        seq![pos] + later_formal_starts(toks, pos + 3)
    } else {
        Seq::empty()
    }
}

/// The formals that follow the comma at `pos` are added to those read
/// before, in the order in which they start in the token sequence.
pub proof fn lemma_later_formals_keep_order(
    toks: Seq<TokenView>,
    pos: int,
    acc: Seq<FormalView>,
    far: Far,
)
    requires
        0 <= pos,
    ensures
        g_formals_rest(toks, pos, acc, far).value.len() == acc.len() + later_formal_starts(
            toks,
            pos,
        ).len(),
        g_formals_rest(toks, pos, acc, far).value.take(acc.len() as int) == acc,
        in_order(
            g_formals_rest(toks, pos, acc, far).value.skip(acc.len() as int),
            later_formal_starts(toks, pos),
            pos,
            |at: int| formal_at(toks, at),
        ),
    decreases remaining(toks, pos),
{
    let all = g_formals_rest(toks, pos, acc, far).value;
    let item_at = |at: int| formal_at(toks, at);
    let next = g_typed_name(toks, pos + 1);
    if is_kind(toks, pos, TokenKind::Comma) && next.out is Some {
        let f = as_formal(next.value());
        let far2 = merge(far, next.far);
        lemma_later_formals_keep_order(toks, pos + 4, acc.push(f), far2);
        let rest = later_formal_starts(toks, pos + 4);
        assert(f == item_at(pos + 1));
        lemma_in_order_same(
            all.skip(acc.len() as int + 1),
            rest,
            pos + 4,
            |at: int| formal_at(toks, at),
            item_at,
        );
        lemma_first_then_rest(all, acc, f, pos + 1, rest, pos, pos + 4, item_at);
        lemma_in_order_same(
            all.skip(acc.len() as int),
            seq![pos + 1] + rest,
            pos,
            item_at,
            |at: int| formal_at(toks, at),
        );
    } else {
        assert(all.take(acc.len() as int) =~= acc);
        assert(all.skip(acc.len() as int) =~= Seq::empty());
    }
}

/// The position at which the formals of a method start that is read from
/// `pos` on: behind the comments, the name and the parenthesis.
pub open spec fn formals_begin(toks: Seq<TokenView>, pos: int) -> int {
    pos + comments(toks, pos) + 2
}

/// The formals of a method stand in its tree in the order in which they
/// stand in the token sequence.
pub proof fn lemma_method_keeps_formal_order(toks: Seq<TokenView>, pos: int)
    requires
        0 <= pos,
        g_method(toks, pos).out is Some,
    ensures
        in_order(
            g_method(toks, pos).value().formals,
            formal_starts(toks, formals_begin(toks, pos)),
            formals_begin(toks, pos),
            |at: int| formal_at(toks, at),
        ),
{
    reveal(g_method);
    let begin = formals_begin(toks, pos);
    let first = g_typed_name(toks, begin);
    let all = g_formals(toks, begin).value;
    let item_at = |at: int| formal_at(toks, at);
    match first.out {
        None => {
        },
        Some((f, _)) => {
            let one = seq![as_formal(f)];
            lemma_later_formals_keep_order(toks, begin + 3, one, first.far);
            let rest = later_formal_starts(toks, begin + 3);
            lemma_in_order_same(all.skip(1), rest, begin + 3, |at: int| formal_at(toks, at), item_at);
            assert(all.take(1) == Seq::<FormalView>::empty().push(as_formal(f))) by {
                assert(one =~= Seq::<FormalView>::empty().push(as_formal(f)));
            }
            lemma_first_then_rest(
                all,
                Seq::empty(),
                as_formal(f),
                begin,
                rest,
                begin,
                begin + 3,
                item_at,
            );
            assert(all.skip(0) =~= all);
            lemma_in_order_same(
                all,
                seq![begin] + rest,
                begin,
                item_at,
                |at: int| formal_at(toks, at),
            );
        },
    }
}

} // verus!
