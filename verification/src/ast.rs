//! The syntax tree that the parser builds, and its mathematical view.
//!
//! Every node owns its children. The view of a node replaces strings by
//! sequences of characters and vectors by sequences, so that the grammar
//! can say which tree a token sequence stands for.

use vstd::prelude::*;

verus! {

/// A whole source text: its classes in the order of declaration.
#[derive(Debug, PartialEq)]
pub struct Program {
    pub classes: Vec<Class>,
}

/// A class: its name, the name of its parent where one is given, and its
/// features in the order of declaration.
#[derive(Debug, PartialEq)]
pub struct Class {
    pub name: String,
    pub parent: Option<String>,
    pub features: Vec<Feature>,
}

/// A member of a class.
#[derive(Debug, PartialEq)]
pub enum Feature {
    Method(MethodFeature),
    Attribute(AttributeFeature),
}

/// A method: its name, its formals in the order of declaration, its
/// declared return type and its body.
#[derive(Debug, PartialEq)]
pub struct MethodFeature {
    pub name: String,
    pub formals: Vec<Formal>,
    pub return_type: String,
    pub body: Expr,
}

/// An attribute: its name, its declared type and its initial value where
/// one is given.
#[derive(Debug, PartialEq)]
pub struct AttributeFeature {
    pub name: String,
    pub attr_type: String,
    pub init: Option<Expr>,
}

/// A declared parameter of a method.
#[derive(Debug, PartialEq)]
pub struct Formal {
    pub name: String,
    pub typ: String,
}

/// An expression. `Not` stands for both negations, `not` and `~`. The
/// parser builds no `Paren` node: an expression in parentheses is the
/// expression itself.
#[derive(Debug, PartialEq)]
pub enum Expr {
    Assign { name: String, expr: Box<Expr> },
    Dispatch { expr: Box<Expr>, static_type: Option<String>, method: String, args: Vec<Expr> },
    FuncCall { name: String, args: Vec<Expr> },
    If { cond: Box<Expr>, then_branch: Box<Expr>, else_branch: Box<Expr> },
    While { cond: Box<Expr>, body: Box<Expr> },
    Block(Vec<Expr>),
    Let { bindings: Vec<LetBinding>, body: Box<Expr> },
    Case { expr: Box<Expr>, branches: Vec<CaseBranch> },
    New(String),
    IsVoid(Box<Expr>),
    Plus(Box<Expr>, Box<Expr>),
    Minus(Box<Expr>, Box<Expr>),
    Times(Box<Expr>, Box<Expr>),
    Divide(Box<Expr>, Box<Expr>),
    Lt(Box<Expr>, Box<Expr>),
    Le(Box<Expr>, Box<Expr>),
    Eq(Box<Expr>, Box<Expr>),
    Not(Box<Expr>),
    Paren(Box<Expr>),
    Id(String),
    Integer(i32),
    String(String),
    True,
    False,
}

/// One binding of a `let`: its name, its declared type and its initial
/// value where one is given.
#[derive(Debug, PartialEq)]
pub struct LetBinding {
    pub name: String,
    pub typ: String,
    pub init: Option<Expr>,
}

/// One branch of a `case`: the name it binds, the type it stands for and
/// its expression.
#[derive(Debug, PartialEq)]
pub struct CaseBranch {
    pub name: String,
    pub typ: String,
    pub expr: Expr,
}

/// The view of a [`Program`].
pub struct ProgramView {
    pub classes: Seq<ClassView>,
}

/// The view of a [`Class`].
pub struct ClassView {
    pub name: Seq<char>,
    pub parent: Option<Seq<char>>,
    pub features: Seq<FeatureView>,
}

/// The view of a [`Feature`].
pub enum FeatureView {
    Method(MethodFeatureView),
    Attribute(AttributeFeatureView),
}

/// The view of a [`MethodFeature`].
pub struct MethodFeatureView {
    pub name: Seq<char>,
    pub formals: Seq<FormalView>,
    pub return_type: Seq<char>,
    pub body: ExprView,
}

/// The view of an [`AttributeFeature`].
pub struct AttributeFeatureView {
    pub name: Seq<char>,
    pub attr_type: Seq<char>,
    pub init: Option<ExprView>,
}

/// The view of a [`Formal`].
pub struct FormalView {
    pub name: Seq<char>,
    pub typ: Seq<char>,
}

/// The view of an [`Expr`]: the same tree, with sequences of characters
/// for strings and unbounded integers for the values of literals.
pub enum ExprView {
    Assign { name: Seq<char>, expr: Box<ExprView> },
    Dispatch {
        expr: Box<ExprView>,
        static_type: Option<Seq<char>>,
        method: Seq<char>,
        args: Seq<ExprView>,
    },
    FuncCall { name: Seq<char>, args: Seq<ExprView> },
    If { cond: Box<ExprView>, then_branch: Box<ExprView>, else_branch: Box<ExprView> },
    While { cond: Box<ExprView>, body: Box<ExprView> },
    Block(Seq<ExprView>),
    Let { bindings: Seq<LetBindingView>, body: Box<ExprView> },
    Case { expr: Box<ExprView>, branches: Seq<CaseBranchView> },
    New(Seq<char>),
    IsVoid(Box<ExprView>),
    Plus(Box<ExprView>, Box<ExprView>),
    Minus(Box<ExprView>, Box<ExprView>),
    Times(Box<ExprView>, Box<ExprView>),
    Divide(Box<ExprView>, Box<ExprView>),
    Lt(Box<ExprView>, Box<ExprView>),
    Le(Box<ExprView>, Box<ExprView>),
    Eq(Box<ExprView>, Box<ExprView>),
    Not(Box<ExprView>),
    Paren(Box<ExprView>),
    Id(Seq<char>),
    Integer(int),
    String(Seq<char>),
    True,
    False,
}

/// The view of a [`LetBinding`].
pub struct LetBindingView {
    pub name: Seq<char>,
    pub typ: Seq<char>,
    pub init: Option<ExprView>,
}

/// The view of a [`CaseBranch`].
pub struct CaseBranchView {
    pub name: Seq<char>,
    pub typ: Seq<char>,
    pub expr: ExprView,
}

/// The views of the items of a sequence, in their order.
#[verifier::opaque]
pub open spec fn views<T: View>(items: Seq<T>) -> Seq<T::V> {
    Seq::new(items.len(), |i: int| items[i]@)
}

/// The views of a sequence are as many as its items, and each is the view
/// of the item at its place.
pub proof fn lemma_views<T: View>(items: Seq<T>)
    ensures
        views(items).len() == items.len(),
        forall|i: int| 0 <= i < items.len() ==> (#[trigger] views(items)[i]) == items[i]@,
{
    reveal(views);
}

/// The views of a sequence with one more item are the views of the
/// sequence and the view of that item.
pub proof fn lemma_views_push<T: View>(items: Seq<T>, last: T)
    ensures
        views(items.push(last)) == views(items).push(last@),
{
    reveal(views);
    assert(views(items.push(last)) =~= views(items).push(last@));
}

/// A sequence without items has no views.
pub proof fn lemma_views_empty<T: View>(items: Seq<T>)
    requires
        items.len() == 0,
    ensures
        views(items) == Seq::<T::V>::empty(),
{
    reveal(views);
    assert(views(items) =~= Seq::<T::V>::empty());
}

/// Sequences whose items have the same views have the same views.
pub proof fn lemma_views_agree<T: View>(a: Seq<T>, b: Seq<T>)
    requires
        a.len() == b.len(),
        forall|i: int| 0 <= i < a.len() ==> a[i]@ == b[i]@,
    ensures
        views(a) == views(b),
{
    reveal(views);
    assert(views(a) =~= views(b));
}

/// The view of a name that may be absent.
pub open spec fn name_view(s: Option<String>) -> Option<Seq<char>> {
    match s {
        Some(s) => Some(s@),
        None => None,
    }
}

/// The view of an expression, node by node.
pub open spec fn expr_view(e: Expr) -> ExprView
    decreases e,
{
    match e {
        Expr::Assign { name, expr } => ExprView::Assign {
            name: name@,
            expr: Box::new(expr_view(*expr)),
        },
        Expr::Dispatch { expr, static_type, method, args } => ExprView::Dispatch {
            expr: Box::new(expr_view(*expr)),
            static_type: name_view(static_type),
            method: method@,
            args: exprs_view(args@),
        },
        Expr::FuncCall { name, args } => ExprView::FuncCall { name: name@, args: exprs_view(args@) },
        Expr::If { cond, then_branch, else_branch } => ExprView::If {
            cond: Box::new(expr_view(*cond)),
            then_branch: Box::new(expr_view(*then_branch)),
            else_branch: Box::new(expr_view(*else_branch)),
        },
        Expr::While { cond, body } => ExprView::While {
            cond: Box::new(expr_view(*cond)),
            body: Box::new(expr_view(*body)),
        },
        Expr::Block(items) => ExprView::Block(exprs_view(items@)),
        Expr::Let { bindings, body } => ExprView::Let {
            bindings: bindings_view(bindings@),
            body: Box::new(expr_view(*body)),
        },
        Expr::Case { expr, branches } => ExprView::Case {
            expr: Box::new(expr_view(*expr)),
            branches: branches_view(branches@),
        },
        Expr::New(t) => ExprView::New(t@),
        Expr::IsVoid(a) => ExprView::IsVoid(Box::new(expr_view(*a))),
        Expr::Plus(a, b) => ExprView::Plus(Box::new(expr_view(*a)), Box::new(expr_view(*b))),
        Expr::Minus(a, b) => ExprView::Minus(Box::new(expr_view(*a)), Box::new(expr_view(*b))),
        Expr::Times(a, b) => ExprView::Times(Box::new(expr_view(*a)), Box::new(expr_view(*b))),
        Expr::Divide(a, b) => ExprView::Divide(Box::new(expr_view(*a)), Box::new(expr_view(*b))),
        Expr::Lt(a, b) => ExprView::Lt(Box::new(expr_view(*a)), Box::new(expr_view(*b))),
        Expr::Le(a, b) => ExprView::Le(Box::new(expr_view(*a)), Box::new(expr_view(*b))),
        Expr::Eq(a, b) => ExprView::Eq(Box::new(expr_view(*a)), Box::new(expr_view(*b))),
        Expr::Not(a) => ExprView::Not(Box::new(expr_view(*a))),
        Expr::Paren(a) => ExprView::Paren(Box::new(expr_view(*a))),
        Expr::Id(s) => ExprView::Id(s@),
        Expr::Integer(i) => ExprView::Integer(i as int),
        Expr::String(s) => ExprView::String(s@),
        Expr::True => ExprView::True,
        Expr::False => ExprView::False,
    }
}

/// The view of an expression that may be absent.
pub open spec fn opt_expr_view(e: Option<Expr>) -> Option<ExprView>
    decreases e,
{
    match e {
        Some(e) => Some(expr_view(e)),
        None => None,
    }
}

/// The views of the expressions of `items`, in their order.
pub open spec fn exprs_view(items: Seq<Expr>) -> Seq<ExprView>
    decreases items,
{
    Seq::new(
        items.len(),
        |i: int|
            if 0 <= i < items.len() {
                expr_view(items[i])
            } else {
                ExprView::True
            },
    )
}

/// The view of a binding of a `let`.
pub open spec fn let_binding_view(b: LetBinding) -> LetBindingView
    decreases b,
{
    LetBindingView { name: b.name@, typ: b.typ@, init: opt_expr_view(b.init) }
}

/// The views of the bindings of `items`, in their order.
pub open spec fn bindings_view(items: Seq<LetBinding>) -> Seq<LetBindingView>
    decreases items,
{
    Seq::new(
        items.len(),
        |i: int|
            if 0 <= i < items.len() {
                let_binding_view(items[i])
            } else {
                LetBindingView { name: Seq::empty(), typ: Seq::empty(), init: None }
            },
    )
}

/// The view of a branch of a `case`.
pub open spec fn case_branch_view(b: CaseBranch) -> CaseBranchView
    decreases b,
{
    CaseBranchView { name: b.name@, typ: b.typ@, expr: expr_view(b.expr) }
}

/// The views of the branches of `items`, in their order.
pub open spec fn branches_view(items: Seq<CaseBranch>) -> Seq<CaseBranchView>
    decreases items,
{
    Seq::new(
        items.len(),
        |i: int|
            if 0 <= i < items.len() {
                case_branch_view(items[i])
            } else {
                CaseBranchView { name: Seq::empty(), typ: Seq::empty(), expr: ExprView::True }
            },
    )
}

impl Expr {
    /// The view of this expression. It is spelled out by `expr_view`.
    #[verifier::opaque]
    pub open spec fn shape(self) -> ExprView {
        expr_view(self)
    }
}

impl View for Expr {
    type V = ExprView;

    open spec fn view(&self) -> ExprView {
        self.shape()
    }
}

impl View for LetBinding {
    type V = LetBindingView;

    open spec fn view(&self) -> LetBindingView {
        let_binding_view(*self)
    }
}

impl View for CaseBranch {
    type V = CaseBranchView;

    open spec fn view(&self) -> CaseBranchView {
        case_branch_view(*self)
    }
}

impl View for Formal {
    type V = FormalView;

    open spec fn view(&self) -> FormalView {
        FormalView { name: self.name@, typ: self.typ@ }
    }
}

impl View for MethodFeature {
    type V = MethodFeatureView;

    open spec fn view(&self) -> MethodFeatureView {
        MethodFeatureView {
            name: self.name@,
            formals: views(self.formals@),
            return_type: self.return_type@,
            body: self.body@,
        }
    }
}

impl View for AttributeFeature {
    type V = AttributeFeatureView;

    open spec fn view(&self) -> AttributeFeatureView {
        AttributeFeatureView {
            name: self.name@,
            attr_type: self.attr_type@,
            init: opt_expr_view(self.init),
        }
    }
}

impl View for Feature {
    type V = FeatureView;

    open spec fn view(&self) -> FeatureView {
        match self {
            Feature::Method(m) => FeatureView::Method(m@),
            Feature::Attribute(a) => FeatureView::Attribute(a@),
        }
    }
}

impl View for Class {
    type V = ClassView;

    open spec fn view(&self) -> ClassView {
        ClassView {
            name: self.name@,
            parent: name_view(self.parent),
            features: views(self.features@),
        }
    }
}

impl View for Program {
    type V = ProgramView;

    open spec fn view(&self) -> ProgramView {
        ProgramView { classes: views(self.classes@) }
    }
}

/// The view of an expression is what `expr_view` yields for it.
pub proof fn lemma_view_of_expr(e: Expr)
    ensures
        e@ == expr_view(e),
{
    reveal(Expr::shape);
}

/// The views that `exprs_view` spells out are the views of the items.
pub proof fn lemma_views_of_exprs(items: Seq<Expr>)
    ensures
        exprs_view(items) == views(items),
{
    reveal(views);
    reveal(Expr::shape);
    assert(exprs_view(items) =~= views(items));
}

/// The views that `bindings_view` spells out are the views of the items.
pub proof fn lemma_views_of_bindings(items: Seq<LetBinding>)
    ensures
        bindings_view(items) == views(items),
{
    reveal(views);
    assert(bindings_view(items) =~= views(items));
}

/// The views that `branches_view` spells out are the views of the items.
pub proof fn lemma_views_of_branches(items: Seq<CaseBranch>)
    ensures
        branches_view(items) == views(items),
{
    reveal(views);
    assert(branches_view(items) =~= views(items));
}

impl Expr {
    /// The assignment `name <- expr`.
    pub fn assign(name: String, expr: Expr) -> (e: Expr)
        ensures
            e@ == (ExprView::Assign { name: name@, expr: Box::new(expr@) }),
    {
        reveal(Expr::shape);
        Expr::Assign { name, expr: Box::new(expr) }
    }

    /// The dispatch of `method` on `expr`, to the method of `static_type`
    /// where one is named.
    pub fn dispatch(expr: Expr, static_type: Option<String>, method: String, args: Vec<Expr>) -> (e:
        Expr)
        ensures
            e@ == (ExprView::Dispatch {
                expr: Box::new(expr@),
                static_type: name_view(static_type),
                method: method@,
                args: views(args@),
            }),
    {
        reveal(Expr::shape);
        proof {
            lemma_views_of_exprs(args@);
        }
        Expr::Dispatch { expr: Box::new(expr), static_type, method, args }
    }

    /// The call of the method `name` of the current object.
    pub fn call(name: String, args: Vec<Expr>) -> (e: Expr)
        ensures
            e@ == (ExprView::FuncCall { name: name@, args: views(args@) }),
    {
        reveal(Expr::shape);
        proof {
            lemma_views_of_exprs(args@);
        }
        Expr::FuncCall { name, args }
    }

    /// The conditional with the given condition and branches.
    pub fn conditional(cond: Expr, then_branch: Expr, else_branch: Expr) -> (e: Expr)
        ensures
            e@ == (ExprView::If {
                cond: Box::new(cond@),
                then_branch: Box::new(then_branch@),
                else_branch: Box::new(else_branch@),
            }),
    {
        reveal(Expr::shape);
        Expr::If {
            cond: Box::new(cond),
            then_branch: Box::new(then_branch),
            else_branch: Box::new(else_branch),
        }
    }

    /// The loop with the given condition and body.
    pub fn repeat(cond: Expr, body: Expr) -> (e: Expr)
        ensures
            e@ == (ExprView::While { cond: Box::new(cond@), body: Box::new(body@) }),
    {
        reveal(Expr::shape);
        Expr::While { cond: Box::new(cond), body: Box::new(body) }
    }

    /// The block of the given expressions.
    pub fn block(items: Vec<Expr>) -> (e: Expr)
        ensures
            e@ == ExprView::Block(views(items@)),
    {
        reveal(Expr::shape);
        proof {
            lemma_views_of_exprs(items@);
        }
        Expr::Block(items)
    }

    /// The `let` with the given bindings and body.
    pub fn bind(bindings: Vec<LetBinding>, body: Expr) -> (e: Expr)
        ensures
            e@ == (ExprView::Let { bindings: views(bindings@), body: Box::new(body@) }),
    {
        reveal(Expr::shape);
        proof {
            lemma_views_of_bindings(bindings@);
        }
        Expr::Let { bindings, body: Box::new(body) }
    }

    /// The `case` on `expr` with the given branches.
    pub fn select(expr: Expr, branches: Vec<CaseBranch>) -> (e: Expr)
        ensures
            e@ == (ExprView::Case { expr: Box::new(expr@), branches: views(branches@) }),
    {
        reveal(Expr::shape);
        proof {
            lemma_views_of_branches(branches@);
        }
        Expr::Case { expr: Box::new(expr), branches }
    }

    /// The creation of an object of type `typ`.
    pub fn create(typ: String) -> (e: Expr)
        ensures
            e@ == ExprView::New(typ@),
    {
        reveal(Expr::shape);
        Expr::New(typ)
    }

    /// The test whether `expr` is void.
    pub fn is_void(expr: Expr) -> (e: Expr)
        ensures
            e@ == ExprView::IsVoid(Box::new(expr@)),
    {
        reveal(Expr::shape);
        Expr::IsVoid(Box::new(expr))
    }

    /// The negation of `expr`.
    pub fn negate(expr: Expr) -> (e: Expr)
        ensures
            e@ == ExprView::Not(Box::new(expr@)),
    {
        reveal(Expr::shape);
        Expr::Not(Box::new(expr))
    }

    /// The identifier `name`.
    pub fn id(name: String) -> (e: Expr)
        ensures
            e@ == ExprView::Id(name@),
    {
        reveal(Expr::shape);
        Expr::Id(name)
    }

    /// The integer literal of value `value`.
    pub fn integer(value: i32) -> (e: Expr)
        ensures
            e@ == ExprView::Integer(value as int),
    {
        reveal(Expr::shape);
        Expr::Integer(value)
    }

    /// The string literal with the text `text`.
    pub fn string(text: String) -> (e: Expr)
        ensures
            e@ == ExprView::String(text@),
    {
        reveal(Expr::shape);
        Expr::String(text)
    }

    /// The literal `true` or `false`.
    pub fn truth(value: bool) -> (e: Expr)
        ensures
            e@ == if value {
                ExprView::True
            } else {
                ExprView::False
            },
    {
        reveal(Expr::shape);
        if value {
            Expr::True
        } else {
            Expr::False
        }
    }
}

} // verus!
