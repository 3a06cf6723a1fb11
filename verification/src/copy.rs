//! Copies of syntax trees: `Clone` for every node, proved to yield a tree
//! with the same view.

use vstd::prelude::*;
use crate::ast::{
    bindings_view, branches_view, exprs_view, lemma_views_agree, name_view, opt_expr_view,
    AttributeFeature, CaseBranch, Class, Expr, Feature, Formal, LetBinding, MethodFeature, Program,
};

verus! {

broadcast use vstd::std_specs::vec::axiom_vec_index_decreases;

/// A copy of a name that may be absent.
fn copy_name(name: &Option<String>) -> (copy: Option<String>)
    ensures
        name_view(copy) == name_view(*name),
{
    match name {
        Some(s) => Some(s.clone()),
        None => None,
    }
}

/// A copy of an expression.
fn copy_expr(e: &Expr) -> (copy: Expr)
    ensures
        copy@ == e@,
    decreases e,
{
    proof {
        reveal(Expr::shape);
    }
    match e {
        Expr::Assign { name, expr } => Expr::Assign {
            name: name.clone(),
            expr: Box::new(copy_expr(expr)),
        },
        Expr::Dispatch { expr, static_type, method, args } => Expr::Dispatch {
            expr: Box::new(copy_expr(expr)),
            static_type: copy_name(static_type),
            method: method.clone(),
            args: copy_exprs(args),
        },
        Expr::FuncCall { name, args } => Expr::FuncCall {
            name: name.clone(),
            args: copy_exprs(args),
        },
        Expr::If { cond, then_branch, else_branch } => Expr::If {
            cond: Box::new(copy_expr(cond)),
            then_branch: Box::new(copy_expr(then_branch)),
            else_branch: Box::new(copy_expr(else_branch)),
        },
        Expr::While { cond, body } => Expr::While {
            cond: Box::new(copy_expr(cond)),
            body: Box::new(copy_expr(body)),
        },
        Expr::Block(items) => Expr::Block(copy_exprs(items)),
        Expr::Let { bindings, body } => Expr::Let {
            bindings: copy_bindings(bindings),
            body: Box::new(copy_expr(body)),
        },
        Expr::Case { expr, branches } => Expr::Case {
            expr: Box::new(copy_expr(expr)),
            branches: copy_branches(branches),
        },
        Expr::New(t) => Expr::New(t.clone()),
        Expr::IsVoid(a) => Expr::IsVoid(Box::new(copy_expr(a))),
        Expr::Plus(a, b) => Expr::Plus(Box::new(copy_expr(a)), Box::new(copy_expr(b))),
        Expr::Minus(a, b) => Expr::Minus(Box::new(copy_expr(a)), Box::new(copy_expr(b))),
        Expr::Times(a, b) => Expr::Times(Box::new(copy_expr(a)), Box::new(copy_expr(b))),
        Expr::Divide(a, b) => Expr::Divide(Box::new(copy_expr(a)), Box::new(copy_expr(b))),
        Expr::Lt(a, b) => Expr::Lt(Box::new(copy_expr(a)), Box::new(copy_expr(b))),
        Expr::Le(a, b) => Expr::Le(Box::new(copy_expr(a)), Box::new(copy_expr(b))),
        Expr::Eq(a, b) => Expr::Eq(Box::new(copy_expr(a)), Box::new(copy_expr(b))),
        Expr::Not(a) => Expr::Not(Box::new(copy_expr(a))),
        Expr::Paren(a) => Expr::Paren(Box::new(copy_expr(a))),
        Expr::Id(s) => Expr::Id(s.clone()),
        Expr::Integer(i) => Expr::Integer(*i),
        Expr::String(s) => Expr::String(s.clone()),
        Expr::True => Expr::True,
        Expr::False => Expr::False,
    }
}

/// A copy of an expression that may be absent.
fn copy_opt_expr(e: &Option<Expr>) -> (copy: Option<Expr>)
    ensures
        opt_expr_view(copy) == opt_expr_view(*e),
    decreases e,
{
    proof {
        reveal(Expr::shape);
    }
    match e {
        Some(e) => Some(copy_expr(e)),
        None => None,
    }
}

/// Copies of the expressions of `items`, in their order.
fn copy_exprs(items: &Vec<Expr>) -> (copy: Vec<Expr>)
    ensures
        exprs_view(copy@) == exprs_view(items@),
    decreases items,
{
    proof {
        reveal(Expr::shape);
    }
    let mut copy: Vec<Expr> = Vec::new();
    let mut i: usize = 0;
    while i < items.len()
        invariant
            i <= items.len(),
            copy@.len() == i,
            forall|j: int| 0 <= j < i ==> copy@[j]@ == items@[j]@,
        decreases items.len() - i,
    {
        proof {
            reveal(Expr::shape);
        }
        copy.push(copy_expr(&items[i]));
        i = i + 1;
    }
    assert(exprs_view(copy@) =~= exprs_view(items@));
    copy
}

/// A copy of a binding of a `let`.
fn copy_binding(b: &LetBinding) -> (copy: LetBinding)
    ensures
        copy@ == b@,
    decreases b,
{
    proof {
        reveal(Expr::shape);
    }
    LetBinding { name: b.name.clone(), typ: b.typ.clone(), init: copy_opt_expr(&b.init) }
}

/// Copies of the bindings of `items`, in their order.
fn copy_bindings(items: &Vec<LetBinding>) -> (copy: Vec<LetBinding>)
    ensures
        bindings_view(copy@) == bindings_view(items@),
    decreases items,
{
    proof {
        reveal(Expr::shape);
    }
    let mut copy: Vec<LetBinding> = Vec::new();
    let mut i: usize = 0;
    while i < items.len()
        invariant
            i <= items.len(),
            copy@.len() == i,
            forall|j: int| 0 <= j < i ==> copy@[j]@ == items@[j]@,
        decreases items.len() - i,
    {
        copy.push(copy_binding(&items[i]));
        i = i + 1;
    }
    assert(bindings_view(copy@) =~= bindings_view(items@));
    copy
}

/// A copy of a branch of a `case`.
fn copy_branch(b: &CaseBranch) -> (copy: CaseBranch)
    ensures
        copy@ == b@,
    decreases b,
{
    proof {
        reveal(Expr::shape);
    }
    CaseBranch { name: b.name.clone(), typ: b.typ.clone(), expr: copy_expr(&b.expr) }
}

/// Copies of the branches of `items`, in their order.
fn copy_branches(items: &Vec<CaseBranch>) -> (copy: Vec<CaseBranch>)
    ensures
        branches_view(copy@) == branches_view(items@),
    decreases items,
{
    proof {
        reveal(Expr::shape);
    }
    let mut copy: Vec<CaseBranch> = Vec::new();
    let mut i: usize = 0;
    while i < items.len()
        invariant
            i <= items.len(),
            copy@.len() == i,
            forall|j: int| 0 <= j < i ==> copy@[j]@ == items@[j]@,
        decreases items.len() - i,
    {
        copy.push(copy_branch(&items[i]));
        i = i + 1;
    }
    assert(branches_view(copy@) =~= branches_view(items@));
    copy
}

impl Clone for Expr {
    fn clone(&self) -> (copy: Self)
        ensures
            copy@ == self@,
    {
        copy_expr(self)
    }
}

impl Clone for LetBinding {
    fn clone(&self) -> (copy: Self)
        ensures
            copy@ == self@,
    {
        copy_binding(self)
    }
}

impl Clone for CaseBranch {
    fn clone(&self) -> (copy: Self)
        ensures
            copy@ == self@,
    {
        copy_branch(self)
    }
}

impl Clone for Formal {
    fn clone(&self) -> (copy: Self)
        ensures
            copy@ == self@,
    {
        Formal { name: self.name.clone(), typ: self.typ.clone() }
    }
}

impl Clone for MethodFeature {
    fn clone(&self) -> (copy: Self)
        ensures
            copy@ == self@,
    {
        let mut formals: Vec<Formal> = Vec::new();
        let mut i: usize = 0;
        while i < self.formals.len()
            invariant
                i <= self.formals.len(),
                formals@.len() == i,
                forall|j: int| 0 <= j < i ==> formals@[j]@ == self.formals@[j]@,
            decreases self.formals.len() - i,
        {
            formals.push(self.formals[i].clone());
            i = i + 1;
        }
        proof {
            lemma_views_agree(formals@, self.formals@);
        }
        MethodFeature {
            name: self.name.clone(),
            formals,
            return_type: self.return_type.clone(),
            body: copy_expr(&self.body),
        }
    }
}

impl Clone for AttributeFeature {
    fn clone(&self) -> (copy: Self)
        ensures
            copy@ == self@,
    {
        AttributeFeature {
            name: self.name.clone(),
            attr_type: self.attr_type.clone(),
            init: copy_opt_expr(&self.init),
        }
    }
}

impl Clone for Feature {
    fn clone(&self) -> (copy: Self)
        ensures
            copy@ == self@,
    {
        match self {
            Feature::Method(m) => Feature::Method(m.clone()),
            Feature::Attribute(a) => Feature::Attribute(a.clone()),
        }
    }
}

impl Clone for Class {
    fn clone(&self) -> (copy: Self)
        ensures
            copy@ == self@,
    {
        let mut features: Vec<Feature> = Vec::new();
        let mut i: usize = 0;
        while i < self.features.len()
            invariant
                i <= self.features.len(),
                features@.len() == i,
                forall|j: int| 0 <= j < i ==> features@[j]@ == self.features@[j]@,
            decreases self.features.len() - i,
        {
            features.push(self.features[i].clone());
            i = i + 1;
        }
        proof {
            lemma_views_agree(features@, self.features@);
        }
        Class { name: self.name.clone(), parent: copy_name(&self.parent), features }
    }
}

impl Clone for Program {
    fn clone(&self) -> (copy: Self)
        ensures
            copy@ == self@,
    {
        let mut classes: Vec<Class> = Vec::new();
        let mut i: usize = 0;
        while i < self.classes.len()
            invariant
                i <= self.classes.len(),
                classes@.len() == i,
                forall|j: int| 0 <= j < i ==> classes@[j]@ == self.classes@[j]@,
            decreases self.classes.len() - i,
        {
            classes.push(self.classes[i].clone());
            i = i + 1;
        }
        proof {
            lemma_views_agree(classes@, self.classes@);
        }
        Program { classes }
    }
}

} // verus!
