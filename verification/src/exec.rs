//! The syntax tree of scripts.

use crate::raw_value::RawValue;
use vstd::prelude::*;

verus! {

/// A full script, a collection of expressions.
///
/// The last expression is the final value of the script.
#[derive(Debug, Default, Clone, PartialEq, Eq)]
pub struct Program(pub Vec<Expr>);

/// An expression.
///
/// Two expressions should be splited with `;`.
#[derive(Debug, PartialEq, Eq)]
pub enum Expr {
    /// A reference to a variable.
    Ref(Ref),
    /// A const value.
    Const(RawValue),
    /// A unary operation.
    Unary(UnaryOp, Box<Expr>),
    /// A binary operation.
    Binary(Box<Expr>, BinaryOp, Box<Expr>),
    /// A call to a function.
    Call(String, String, Vec<Expr>),
}

/// Unary operations.
#[derive(Debug, Clone, Copy, PartialEq, Eq, Structural)]
pub enum UnaryOp {
    /// `+`
    Positive,
    /// `-`
    Negative,
    /// `!`
    Not,
}

/// Binary operations.
#[derive(Debug, Clone, Copy, PartialEq, Eq, Structural)]
pub enum BinaryOp {
    /// Value operations.
    Val(ValBinaryOp),
    /// Logical operations.
    Logic(LogicBinaryOp),
    /// Assignment.
    Assign,
    /// Inplace value operations.
    Inplace(ValBinaryOp),
}

/// Value binary operations.
#[derive(Debug, Clone, Copy, PartialEq, Eq, Structural)]
pub enum ValBinaryOp {
    /// `+`
    Add,
    /// `-`
    Minus,
    /// `*`
    Mul,
    /// `/`
    Div,
    /// `%`
    Mod,
    /// `&`
    And,
    /// `|`
    Or,
    /// `^`
    Xor,
}

/// Logical operations.
#[derive(Debug, Clone, Copy, PartialEq, Eq, Structural)]
pub enum LogicBinaryOp {
    /// `&&`
    And,
    /// `||`
    Or,
    /// `==`
    Eq,
    /// `!=`
    Neq,
    /// `<`
    Lt,
    /// `<=`
    Le,
    /// `>`
    Gt,
    /// `>=`
    Ge,
}

/// Reference of a variable.
#[derive(Debug, PartialEq, Eq)]
pub enum Ref {
    /// A local variable.
    /// It is only accessible in current program.
    Var(String),
    /// A context variable.
    /// It is stored in the context.
    /// The variable name is prefixed with `$`.
    Ctx(String),
}

impl Clone for Ref {
    fn clone(&self) -> (r: Self)
        ensures
            r == *self,
    {
        match self {
            Ref::Var(n) => Ref::Var(n.clone()),
            Ref::Ctx(n) => Ref::Ctx(n.clone()),
        }
    }
}

/// The mathematical view of an expression: the same tree, with the names as
/// characters and each list of arguments as a sequence.
pub enum ExprView {
    Ref(Ref),
    Const(RawValue),
    Unary(UnaryOp, Box<ExprView>),
    Binary(Box<ExprView>, BinaryOp, Box<ExprView>),
    Call(Seq<char>, Seq<char>, Seq<ExprView>),
}

/// The view of an expression.
pub open spec fn expr_view(e: Expr) -> ExprView
    decreases e,
{
    match e {
        Expr::Ref(r) => ExprView::Ref(r),
        Expr::Const(v) => ExprView::Const(v),
        Expr::Unary(op, inner) => ExprView::Unary(op, Box::new(expr_view(*inner))),
        Expr::Binary(lhs, op, rhs) => ExprView::Binary(
            Box::new(expr_view(*lhs)),
            op,
            Box::new(expr_view(*rhs)),
        ),
        Expr::Call(ns, name, args) => {
            proof {
                assert(decreases_to!(args => args@));
            }
            ExprView::Call(ns@, name@, exprs_view(args@))
        },
    }
}

/// The views of a sequence of expressions.
pub open spec fn exprs_view(s: Seq<Expr>) -> Seq<ExprView>
    decreases s,
{
    if s.len() == 0 {
        Seq::empty()
    } else {
        exprs_view(s.drop_last()).push(expr_view(s.last()))
    }
}

impl View for Expr {
    type V = ExprView;

    open spec fn view(&self) -> ExprView {
        expr_view(*self)
    }
}

/// A copy of an expression tree.
fn clone_expr(e: &Expr) -> (r: Expr)
    ensures
        r@ == e@,
    decreases e,
{
    match e {
        Expr::Ref(r) => Expr::Ref(r.clone()),
        Expr::Const(v) => Expr::Const(v.clone()),
        Expr::Unary(op, inner) => Expr::Unary(*op, Box::new(clone_expr(inner))),
        Expr::Binary(lhs, op, rhs) => Expr::Binary(
            Box::new(clone_expr(lhs)),
            *op,
            Box::new(clone_expr(rhs)),
        ),
        Expr::Call(ns, name, args) => Expr::Call(ns.clone(), name.clone(), clone_exprs(args)),
    }
}

/// A copy of a list of expression trees.
fn clone_exprs(args: &Vec<Expr>) -> (r: Vec<Expr>)
    ensures
        exprs_view(r@) == exprs_view(args@),
    decreases args,
{
    let mut out: Vec<Expr> = Vec::new();
    let mut i: usize = 0;
    assert(args@.take(0) =~= Seq::<Expr>::empty());
    while i < args.len()
        invariant
            i <= args@.len(),
            exprs_view(out@) == exprs_view(args@.take(i as int)),
        decreases args.len() - i,
    {
        proof {
            assert(decreases_to!(args => args@[i as int]));
        }
        let c = clone_expr(&args[i]);
        let ghost before = out@;
        out.push(c);
        proof {
            assert(out@.drop_last() =~= before);
            assert(args@.take(i as int + 1).drop_last() =~= args@.take(i as int));
            assert(args@.take(i as int + 1).last() == args@[i as int]);
        }
        i = i + 1;
    }
    assert(args@.take(args@.len() as int) =~= args@);
    out
}

impl Clone for Expr {
    fn clone(&self) -> (r: Self)
        ensures
            r@ == self@,
    {
        clone_expr(self)
    }
}

} // verus!
