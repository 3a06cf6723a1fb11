//! Parsing of whole programs: classes, their features, and the report of
//! a parse that failed.

use vstd::prelude::*;
use vstd::string::*;
use crate::ast::{
    lemma_views_empty, lemma_views_push, name_view, views, AttributeFeature, Class, Expr, Feature,
    Formal, MethodFeature, Program,
};
use crate::grammar::{
    as_attribute, as_formal, g_class_tail, g_classes, g_expression, g_feature, g_features,
    g_formals, g_formals_rest, g_method, g_parent, g_program, Far,
};
use crate::lexical::{lexemes, recovered, Lexeme};
use crate::parser::{
    agrees, count_comments, declaration, declaration_view, expr, furthest_at, furthest_miss,
    furthest_none, has_kind, merge_far, padded, read_type, run_agrees, text_at, token_views,
    type_kinds_list, typed_name, Furthest, Outcome, RunOut,
};
use crate::lexer::tokenize;
use crate::token::{Span, SpannedToken, Token, TokenKind, TokenView};

verus! {

/// Why a token sequence is not a program.
#[derive(Debug, PartialEq)]
pub enum ParseError {
    /// A token stands where one of other kinds was looked for.
    UnexpectedToken { expected: Vec<TokenKind>, found: Token, span: Span },
    /// The tokens end where one more was looked for.
    UnexpectedEnd { expected: Vec<TokenKind>, span: Span },
}

/// The kinds of `kinds` without repetitions, each where it first occurs.
pub open spec fn distinct(kinds: Seq<TokenKind>) -> Seq<TokenKind>
    decreases kinds.len(),
{
    if kinds.len() == 0 {
        Seq::empty()
    } else {
        let before = distinct(kinds.drop_last());
        if before.contains(kinds.last()) {
            before
        } else {
            before.push(kinds.last())
        }
    }
}

/// The error `e` reports the record `far` of a parse of `tokens` that
/// failed: the token at the furthest position and its span, or the end of
/// the input at offset `end` where the tokens ran out, and the kinds that
/// were looked for there.
pub open spec fn reports(e: ParseError, tokens: Seq<SpannedToken>, far: Far, end: usize) -> bool {
    if 0 <= far.pos < tokens.len() {
        &&& e matches ParseError::UnexpectedToken { expected, found, span }
        &&& expected@ == distinct(far.expected)
        &&& found@ == tokens[far.pos].token@
        &&& span == tokens[far.pos].span
    } else {
        &&& e matches ParseError::UnexpectedEnd { expected, span }
        &&& expected@ == distinct(far.expected)
        &&& span == Span { start: end, end }
    }
}

/// The formal that a name and its type stand for.
fn formal(t: (String, String)) -> (f: Formal)
    ensures
        f@ == as_formal((t.0@, t.1@)),
{
    Formal { name: t.0, typ: t.1 }
}

/// Parses the formals of a method.
fn formals(toks: &Vec<SpannedToken>, pos: usize) -> (r: RunOut<Vec<Formal>>)
    requires
        pos <= toks.len(),
    ensures
        run_agrees(r, g_formals(token_views(toks@), pos as int), |v: Vec<Formal>| views(v@)),
        pos + r.used <= toks.len(),
{
    let first = typed_name(toks, pos);
    match first.out {
        None => {
            let none: Vec<Formal> = Vec::new();
            proof {
                lemma_views_empty(none@);
            }
            RunOut { value: none, used: 0, far: first.far }
        },
        Some((t, _)) => {
            let mut acc: Vec<Formal> = Vec::new();
            let f = formal(t);
            proof {
                lemma_views_empty(acc@);
                lemma_views_push(acc@, f);
            }
            acc.push(f);
            let rest = formals_rest(toks, pos + 3, acc, first.far);
            RunOut { value: rest.value, used: rest.used + 3, far: rest.far }
        },
    }
}

/// Parses the formals that follow those in `acc0`.
fn formals_rest(toks: &Vec<SpannedToken>, pos: usize, acc0: Vec<Formal>, far0: Furthest) -> (r:
    RunOut<Vec<Formal>>)
    requires
        pos <= toks.len(),
    ensures
        run_agrees(
            r,
            g_formals_rest(token_views(toks@), pos as int, views(acc0@), far0@),
            |v: Vec<Formal>| views(v@),
        ),
        pos + r.used <= toks.len(),
{
    let ghost goal = g_formals_rest(token_views(toks@), pos as int, views(acc0@), far0@);
    let mut p = pos;
    let mut acc = acc0;
    let mut far = far0;
    loop
        invariant
            pos <= p <= toks.len(),
            goal == g_formals_rest(token_views(toks@), pos as int, views(acc0@), far0@),
            goal == g_formals_rest(token_views(toks@), p as int, views(acc@), far@).after(
                (p - pos) as nat,
            ),
        decreases toks.len() - p,
    {
        if !has_kind(toks, p, TokenKind::Comma) {
            let far = merge_far(far, furthest_miss(p, TokenKind::Comma));
            return RunOut { value: acc, used: p - pos, far };
        }
        let next = typed_name(toks, p + 1);
        far = merge_far(far, next.far);
        match next.out {
            None => {
                return RunOut { value: acc, used: p - pos, far };
            },
            Some((t, _)) => {
                let f = formal(t);
                proof {
                    lemma_views_push(acc@, f);
                }
                acc.push(f);
                p = p + 4;
            },
        }
    }
}

/// Parses a method.
fn method(toks: &Vec<SpannedToken>, pos: usize) -> (o: Outcome<MethodFeature>)
    requires
        pos <= toks.len(),
    ensures
        agrees(o, g_method(token_views(toks@), pos as int), |m: MethodFeature| m@),
        o.out matches Some((_, used)) ==> pos + used <= toks.len(),
{
    proof {
        reveal(g_method);
    }
    let c1 = count_comments(toks, pos);
    let p = pos + c1;
    if !has_kind(toks, p, TokenKind::ObjectIdentifier) {
        return Outcome { out: None, far: furthest_miss(p, TokenKind::ObjectIdentifier) };
    }
    if !has_kind(toks, p + 1, TokenKind::LeftParen) {
        return Outcome { out: None, far: furthest_miss(p + 1, TokenKind::LeftParen) };
    }
    let list = formals(toks, p + 2);
    let q = p + 2 + list.used;
    if !has_kind(toks, q, TokenKind::RightParen) {
        return Outcome {
            out: None,
            far: merge_far(list.far, furthest_miss(q, TokenKind::RightParen)),
        };
    }
    if !has_kind(toks, q + 1, TokenKind::Colon) {
        return Outcome { out: None, far: merge_far(list.far, furthest_miss(q + 1, TokenKind::Colon)) };
    }
    match read_type(toks, q + 2) {
        None => Outcome { out: None, far: merge_far(list.far, furthest_at(q + 2, type_kinds_list())) },
        Some(return_type) => {
            let c2 = count_comments(toks, q + 3);
            let r = q + 3 + c2;
            if !has_kind(toks, r, TokenKind::LeftBrace) {
                Outcome { out: None, far: merge_far(list.far, furthest_miss(r, TokenKind::LeftBrace)) }
            } else {
                let body = expr(toks, r + 1);
                let far2 = merge_far(list.far, body.far);
                match body.out {
                    None => Outcome { out: None, far: far2 },
                    Some((e, n)) => {
                        if !has_kind(toks, r + 1 + n, TokenKind::RightBrace) {
                            Outcome {
                                out: None,
                                far: merge_far(far2, furthest_miss(r + 1 + n, TokenKind::RightBrace)),
                            }
                        } else {
                            Outcome {
                                out: Some(
                                    (
                                        MethodFeature {
                                            name: text_at(toks, p),
                                            formals: list.value,
                                            return_type,
                                            body: e,
                                        },
                                        c1 + 2 + list.used + 3 + c2 + 1 + n + 1,
                                    ),
                                ),
                                far: far2,
                            }
                        }
                    },
                }
            }
        },
    }
}

/// The attribute that a declaration stands for.
fn attribute(d: (String, String, Option<Expr>)) -> (a: AttributeFeature)
    ensures
        a@ == as_attribute(declaration_view(d)),
{
    AttributeFeature { name: d.0, attr_type: d.1, init: d.2 }
}

/// Parses a feature without the semicolon that closes it.
fn feature(toks: &Vec<SpannedToken>, pos: usize) -> (o: Outcome<Feature>)
    requires
        pos <= toks.len(),
    ensures
        agrees(o, g_feature(token_views(toks@), pos as int), |f: Feature| f@),
        o.out matches Some((_, used)) ==> pos + used <= toks.len(),
{
    proof {
        reveal(g_feature);
    }
    let m = method(toks, pos);
    match m.out {
        Some((mf, n)) => Outcome { out: Some((Feature::Method(mf), n)), far: m.far },
        None => {
            let a = declaration(toks, pos);
            let far = merge_far(m.far, a.far);
            match a.out {
                None => Outcome { out: None, far },
                Some((d, n)) => Outcome { out: Some((Feature::Attribute(attribute(d)), n)), far },
            }
        },
    }
}

/// Parses the features of a class and adds them to `acc0`.
fn features(toks: &Vec<SpannedToken>, pos: usize, acc0: Vec<Feature>, far0: Furthest) -> (r: RunOut<
    Vec<Feature>,
>)
    requires
        pos <= toks.len(),
    ensures
        run_agrees(
            r,
            g_features(token_views(toks@), pos as int, views(acc0@), far0@),
            |v: Vec<Feature>| views(v@),
        ),
        pos + r.used <= toks.len(),
{
    let ghost goal = g_features(token_views(toks@), pos as int, views(acc0@), far0@);
    let mut p = pos;
    let mut acc = acc0;
    let mut far = far0;
    loop
        invariant
            pos <= p <= toks.len(),
            goal == g_features(token_views(toks@), pos as int, views(acc0@), far0@),
            goal == g_features(token_views(toks@), p as int, views(acc@), far@).after(
                (p - pos) as nat,
            ),
        decreases toks.len() - p,
    {
        let next = feature(toks, p);
        far = merge_far(far, next.far);
        match next.out {
            None => {
                return RunOut { value: acc, used: p - pos, far };
            },
            Some((f, n)) => {
                if !has_kind(toks, p + n, TokenKind::Semicolon) {
                    let far = merge_far(far, furthest_miss(p + n, TokenKind::Semicolon));
                    return RunOut { value: acc, used: p - pos, far };
                }
                proof {
                    lemma_views_push(acc@, f);
                }
                acc.push(f);
                p = p + n + 1;
            },
        }
    }
}

/// Parses the parent of a class, if one is named.
fn parent(toks: &Vec<SpannedToken>, pos: usize) -> (r: RunOut<Option<String>>)
    requires
        pos <= toks.len(),
    ensures
        run_agrees(
            r,
            g_parent(token_views(toks@), pos as int),
            |t: Option<String>| name_view(t),
        ),
        pos + r.used <= toks.len(),
{
    proof {
        reveal(g_parent);
    }
    if has_kind(toks, pos, TokenKind::Inherits) {
        match read_type(toks, pos + 1) {
            Some(t) => RunOut { value: Some(t), used: 2, far: furthest_none() },
            None => RunOut { value: None, used: 0, far: furthest_at(pos + 1, type_kinds_list()) },
        }
    } else {
        RunOut { value: None, used: 0, far: furthest_miss(pos, TokenKind::Inherits) }
    }
}

/// Parses a class after its keyword.
fn class_tail(toks: &Vec<SpannedToken>, pos: usize) -> (o: Outcome<Class>)
    requires
        pos <= toks.len(),
    ensures
        agrees(o, g_class_tail(token_views(toks@), pos as int), |c: Class| c@),
        o.out matches Some((_, used)) ==> pos + used <= toks.len(),
{
    proof {
        reveal(g_class_tail);
    }
    match read_type(toks, pos) {
        None => Outcome { out: None, far: furthest_at(pos, type_kinds_list()) },
        Some(name) => {
            let above = parent(toks, pos + 1);
            let p = pos + 1 + above.used;
            if !has_kind(toks, p, TokenKind::LeftBrace) {
                Outcome { out: None, far: merge_far(above.far, furthest_miss(p, TokenKind::LeftBrace)) }
            } else {
                let none: Vec<Feature> = Vec::new();
                proof {
                    lemma_views_empty(none@);
                }
                let members = features(toks, p + 1, none, above.far);
                let q = p + 1 + members.used;
                if !has_kind(toks, q, TokenKind::RightBrace) {
                    Outcome {
                        out: None,
                        far: merge_far(members.far, furthest_miss(q, TokenKind::RightBrace)),
                    }
                } else if !has_kind(toks, q + 1, TokenKind::Semicolon) {
                    Outcome {
                        out: None,
                        far: merge_far(members.far, furthest_miss(q + 1, TokenKind::Semicolon)),
                    }
                } else {
                    Outcome {
                        out: Some(
                            (
                                Class { name, parent: above.value, features: members.value },
                                1 + above.used + 1 + members.used + 2,
                            ),
                        ),
                        far: members.far,
                    }
                }
            }
        },
    }
}

/// Parses the classes from `pos` on and adds them to `acc0`.
fn classes(toks: &Vec<SpannedToken>, pos: usize, acc0: Vec<Class>, far0: Furthest) -> (r: RunOut<
    Vec<Class>,
>)
    requires
        pos <= toks.len(),
    ensures
        run_agrees(
            r,
            g_classes(token_views(toks@), pos as int, views(acc0@), far0@),
            |v: Vec<Class>| views(v@),
        ),
        pos + r.used <= toks.len(),
{
    let ghost goal = g_classes(token_views(toks@), pos as int, views(acc0@), far0@);
    let mut p = pos;
    let mut acc = acc0;
    let mut far = far0;
    loop
        invariant
            pos <= p <= toks.len(),
            goal == g_classes(token_views(toks@), pos as int, views(acc0@), far0@),
            goal == g_classes(token_views(toks@), p as int, views(acc@), far@).after(
                (p - pos) as nat,
            ),
        decreases toks.len() - p,
    {
        let c = count_comments(toks, p);
        let q = p + c;
        if !has_kind(toks, q, TokenKind::Class) {
            let far = merge_far(far, furthest_miss(q, TokenKind::Class));
            return RunOut { value: acc, used: q - pos, far };
        }
        let next = class_tail(toks, q + 1);
        far = merge_far(far, next.far);
        match next.out {
            None => {
                return RunOut { value: acc, used: q - pos, far };
            },
            Some((class, n)) => {
                proof {
                    lemma_views_push(acc@, class);
                }
                acc.push(class);
                p = q + 1 + n;
            },
        }
    }
}

/// Whether `kind` is among `kinds`.
fn includes(kinds: &Vec<TokenKind>, kind: TokenKind) -> (found: bool)
    ensures
        found == kinds@.contains(kind),
{
    let mut i: usize = 0;
    while i < kinds.len()
        invariant
            i <= kinds.len(),
            forall|j: int| 0 <= j < i ==> kinds@[j] != kind,
        decreases kinds.len() - i,
    {
        if kinds[i] == kind {
            return true;
        }
        i += 1;
    }
    false
}

/// The kinds of `kinds` without repetitions, each where it first occurs.
fn distinct_kinds(kinds: &Vec<TokenKind>) -> (out: Vec<TokenKind>)
    ensures
        out@ == distinct(kinds@),
{
    let mut out: Vec<TokenKind> = Vec::new();
    let mut i: usize = 0;
    while i < kinds.len()
        invariant
            i <= kinds.len(),
            out@ == distinct(kinds@.take(i as int)),
        decreases kinds.len() - i,
    {
        assert(kinds@.take(i + 1).drop_last() =~= kinds@.take(i as int));
        if !includes(&out, kinds[i]) {
            out.push(kinds[i]);
        }
        i += 1;
    }
    assert(kinds@.take(i as int) =~= kinds@);
    out
}

/// The report of a parse that failed with the record `far`.
fn report(tokens: &Vec<SpannedToken>, far: Furthest, end: usize) -> (errors: Vec<ParseError>)
    ensures
        errors@.len() == 1,
        reports(errors@[0], tokens@, far@, end),
{
    let expected = distinct_kinds(&far.expected);
    let error = if far.pos < tokens.len() {
        ParseError::UnexpectedToken {
            expected,
            found: tokens[far.pos].token.clone(),
            span: tokens[far.pos].span,
        }
    } else {
        ParseError::UnexpectedEnd { expected, span: Span { start: end, end } }
    };
    let mut errors: Vec<ParseError> = Vec::new();
    errors.push(error);
    errors
}

/// Parses a whole token stream as a program. `end` is the offset at which
/// the source text ends; an error that the end of the tokens causes is
/// reported there.
///
/// The result is the program that the grammar assigns to the tokens.
/// Where it assigns none, the result is one error, which names the token
/// at the furthest position at which the parser looked for a token of
/// another kind, and the kinds it looked for.
pub fn parse_program(tokens: &Vec<SpannedToken>, end: usize) -> (result: Result<
    Program,
    Vec<ParseError>,
>)
    ensures
        match g_program(token_views(tokens@)) {
            Ok(program) => result matches Ok(p) && p@ == program,
            Err(far) => result matches Err(errors) && errors@.len() == 1 && reports(
                errors@[0],
                tokens@,
                far,
                end,
            ),
        },
{
    let none: Vec<Class> = Vec::new();
    proof {
        lemma_views_empty(none@);
    }
    let all = classes(tokens, 0, none, furthest_none());
    if all.used == tokens.len() {
        Ok(Program { classes: all.value })
    } else {
        Err(report(tokens, merge_far(all.far, furthest_miss(all.used, TokenKind::EndOfInput)), end))
    }
}

/// Parses a whole token stream as one expression, which may stand between
/// comments. Errors are reported as by [`parse_program`].
pub fn parse_expression(tokens: &Vec<SpannedToken>, end: usize) -> (result: Result<
    Expr,
    Vec<ParseError>,
>)
    ensures
        match g_expression(token_views(tokens@)) {
            Ok(expr) => result matches Ok(e) && e@ == expr,
            Err(far) => result matches Err(errors) && errors@.len() == 1 && reports(
                errors@[0],
                tokens@,
                far,
                end,
            ),
        },
{
    let whole = padded(tokens, 0);
    match whole.out {
        None => Err(report(tokens, whole.far, end)),
        Some((e, n)) => {
            if n == tokens.len() {
                Ok(e)
            } else {
                Err(report(tokens, merge_far(whole.far, furthest_miss(n, TokenKind::EndOfInput)), end))
            }
        },
    }
}

/// The tokens that the lexemes `lexemes` put into the token stream.
pub open spec fn stream_views(lexemes: Seq<Lexeme>) -> Seq<TokenView> {
    Seq::new(lexemes.len(), |i: int| recovered(lexemes[i].found))
}

/// The error `e` reports the record `far` of a parse that failed of the
/// token stream of `lexemes`, for a text that ends at offset `end`.
pub open spec fn reports_in(e: ParseError, lexemes: Seq<Lexeme>, far: Far, end: usize) -> bool {
    if 0 <= far.pos < lexemes.len() {
        &&& e matches ParseError::UnexpectedToken { expected, found, span }
        &&& expected@ == distinct(far.expected)
        &&& found@ == recovered(lexemes[far.pos].found)
        &&& span.start == lexemes[far.pos].start
        &&& span.end == lexemes[far.pos].end
    } else {
        &&& e matches ParseError::UnexpectedEnd { expected, span }
        &&& expected@ == distinct(far.expected)
        &&& span == Span { start: end, end }
    }
}

/// Reads `source` as a program: tokenizes it and parses the tokens.
///
/// The result is the program that the grammar assigns to the tokens of
/// the text, where a stretch that is no token counts as the `Error`
/// token. Where the grammar assigns none, the result is one error as
/// [`parse_program`] reports it.
pub fn parse_source(source: &str) -> (result: Result<Program, Vec<ParseError>>)
    ensures
        match g_program(stream_views(lexemes(source.spec_bytes(), 0))) {
            Ok(program) => result matches Ok(p) && p@ == program,
            Err(far) => result matches Err(errors) && errors@.len() == 1 && reports_in(
                errors@[0],
                lexemes(source.spec_bytes(), 0),
                far,
                source.spec_bytes().len() as usize,
            ),
        },
{
    let tokens = tokenize(source);
    assert(token_views(tokens@) =~= stream_views(lexemes(source.spec_bytes(), 0)));
    parse_program(&tokens, source.as_bytes().len())
}

} // verus!
