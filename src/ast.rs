//! The syntax tree.
use vstd::prelude::*;

verus! {

/// An expression. A literal holds its value as a canonical decimal numeral.
#[derive(Debug, PartialEq)]
pub enum Expression {
    Literal(String),
    Variable(String),
    Binary(String, Box<Expression>, Box<Expression>),
    Call(String, Vec<Expression>),
    Conditional {
        cond_expr: Box<Expression>,
        if_block_expr: Box<Expression>,
        else_block_expr: Box<Expression>,
    },
}

/// A function's name and the names of its parameters.
#[derive(Debug, PartialEq)]
pub struct Prototype {
    pub name: String,
    pub args: Vec<String>,
}

/// A function: with a body it is a definition, without one a declaration.
#[derive(Debug, PartialEq)]
pub struct Function {
    pub prototype: Prototype,
    pub body: Option<Expression>,
}

/// A top-level item.
#[derive(Debug, PartialEq)]
pub enum ASTNode {
    ExternNode(Prototype),
    FunctionNode(Function),
}

/// The value of an expression, with the characters of its names.
pub enum ExprView {
    Literal(Seq<char>),
    Variable(Seq<char>),
    Binary(Seq<char>, Box<ExprView>, Box<ExprView>),
    Call(Seq<char>, Seq<ExprView>),
    Conditional(Box<ExprView>, Box<ExprView>, Box<ExprView>),
}

pub struct ProtoView {
    pub name: Seq<char>,
    pub args: Seq<Seq<char>>,
}

pub enum NodeView {
    Extern(ProtoView),
    Function(ProtoView, Option<ExprView>),
}

pub open spec fn expr_view(e: Expression) -> ExprView
    decreases e, 0nat,
{
    match e {
        Expression::Literal(v) => ExprView::Literal(v@),
        Expression::Variable(n) => ExprView::Variable(n@),
        Expression::Binary(op, l, r) => ExprView::Binary(
            op@,
            Box::new(expr_view(*l)),
            Box::new(expr_view(*r)),
        ),
        Expression::Call(n, args) => ExprView::Call(n@, args_view(args, args.len() as nat)),
        Expression::Conditional { cond_expr, if_block_expr, else_block_expr } => {
            ExprView::Conditional(
                Box::new(expr_view(*cond_expr)),
                Box::new(expr_view(*if_block_expr)),
                Box::new(expr_view(*else_block_expr)),
            )
        },
    }
}

/// The values of the first `n` expressions of `args`.
pub open spec fn args_view(args: Vec<Expression>, n: nat) -> Seq<ExprView>
    decreases args, n,
{
    if n == 0 || n > args.len() {
        Seq::<ExprView>::empty()
    } else {
        proof {
            vstd::std_specs::vec::axiom_vec_index_decreases(args, n - 1);
        }
        args_view(args, (n - 1) as nat).push(expr_view(args[n - 1]))
    }
}

/// The characters of each name.
pub open spec fn names_view(names: Seq<String>) -> Seq<Seq<char>> {
    names.map_values(|a: String| a@)
}

pub proof fn lemma_args_view_len(args: Vec<Expression>, n: nat)
    requires
        n <= args.len(),
    ensures
        args_view(args, n).len() == n,
    decreases n,
{
    if n > 0 {
        lemma_args_view_len(args, (n - 1) as nat);
    }
}

/// The views of the first `n` arguments depend on those arguments' views alone.
pub proof fn lemma_args_view_eq(a: Vec<Expression>, b: Vec<Expression>, n: nat)
    requires
        n <= a.len(),
        n <= b.len(),
        forall|i: int| 0 <= i < n ==> a[i]@ == b[i]@,
    ensures
        args_view(a, n) == args_view(b, n),
    decreases n,
{
    if n > 0 {
        lemma_args_view_eq(a, b, (n - 1) as nat);
    }
}

pub proof fn lemma_args_view_push(a: Vec<Expression>, b: Vec<Expression>, e: Expression)
    requires
        b@ == a@.push(e),
    ensures
        args_view(b, b.len() as nat) == args_view(a, a.len() as nat).push(e@),
{
    assert forall|i: int| 0 <= i < a.len() implies a[i]@ == b[i]@ by {
        assert(b@[i] == a@[i]);
    }
    lemma_args_view_eq(a, b, a.len() as nat);
    assert(b@[a.len() as int] == e);
}

/// A copy of an expression.
fn copy_expr(e: &Expression) -> (r: Expression)
    ensures
        r@ == e@,
    decreases e, 0nat,
{
    match e {
        Expression::Literal(v) => Expression::Literal(v.clone()),
        Expression::Variable(n) => Expression::Variable(n.clone()),
        Expression::Binary(op, l, r) => Expression::Binary(
            op.clone(),
            Box::new(copy_expr(l)),
            Box::new(copy_expr(r)),
        ),
        Expression::Call(n, args) => Expression::Call(n.clone(), copy_args(args, args.len())),
        Expression::Conditional { cond_expr, if_block_expr, else_block_expr } => {
            Expression::Conditional {
                cond_expr: Box::new(copy_expr(cond_expr)),
                if_block_expr: Box::new(copy_expr(if_block_expr)),
                else_block_expr: Box::new(copy_expr(else_block_expr)),
            }
        },
    }
}

/// A copy of the first `n` arguments.
fn copy_args(args: &Vec<Expression>, n: usize) -> (r: Vec<Expression>)
    requires
        n <= args.len(),
    ensures
        r.len() == n,
        args_view(r, n as nat) == args_view(*args, n as nat),
    decreases args, n,
{
    if n == 0 {
        Vec::new()
    } else {
        let mut out = copy_args(args, n - 1);
        proof {
            vstd::std_specs::vec::axiom_vec_index_decreases(*args, n - 1);
        }
        let last = copy_expr(&args[n - 1]);
        let ghost before = out;
        out.push(last);
        proof {
            lemma_args_view_push(before, out, last);
        }
        out
    }
}

impl Clone for Expression {
    fn clone(&self) -> (r: Self)
        ensures
            r@ == self@,
    {
        copy_expr(self)
    }
}

/// A copy of a list of names.
pub fn copy_names(names: &Vec<String>) -> (r: Vec<String>)
    ensures
        r@ == names@,
{
    let mut out: Vec<String> = Vec::new();
    let mut i: usize = 0;
    while i < names.len()
        invariant
            i <= names.len(),
            out@ == names@.take(i as int),
        decreases names.len() - i,
    {
        out.push(names[i].clone());
        i += 1;
        assert(out@ =~= names@.take(i as int));
    }
    assert(names@.take(names.len() as int) =~= names@);
    out
}

impl Clone for Prototype {
    fn clone(&self) -> (r: Self)
        ensures
            r@ == self@,
    {
        Prototype { name: self.name.clone(), args: copy_names(&self.args) }
    }
}

impl Clone for Function {
    fn clone(&self) -> (r: Self)
        ensures
            r.prototype@ == self.prototype@,
            r.body is Some <==> self.body is Some,
            r.body is Some ==> r.body->0@ == self.body->0@,
    {
        Function {
            prototype: self.prototype.clone(),
            body: match &self.body {
                Some(b) => Some(b.clone()),
                None => None,
            },
        }
    }
}

impl Clone for ASTNode {
    fn clone(&self) -> (r: Self)
        ensures
            r@ == self@,
    {
        match self {
            ASTNode::ExternNode(p) => ASTNode::ExternNode(p.clone()),
            ASTNode::FunctionNode(f) => ASTNode::FunctionNode(f.clone()),
        }
    }
}

impl View for Expression {
    type V = ExprView;

    open spec fn view(&self) -> ExprView {
        expr_view(*self)
    }
}

impl View for Prototype {
    type V = ProtoView;

    open spec fn view(&self) -> ProtoView {
        ProtoView { name: self.name@, args: names_view(self.args@) }
    }
}

impl View for ASTNode {
    type V = NodeView;

    open spec fn view(&self) -> NodeView {
        match self {
            ASTNode::ExternNode(p) => NodeView::Extern(p@),
            ASTNode::FunctionNode(f) => NodeView::Function(
                f.prototype@,
                match f.body {
                    Some(b) => Some(b@),
                    None => None,
                },
            ),
        }
    }
}

pub open spec fn nodes_view(ns: Seq<ASTNode>) -> Seq<NodeView> {
    ns.map_values(|n: ASTNode| n@)
}

} // verus!
