use vstd::prelude::*;

verus! {

/// Operators that take one argument.
#[derive(Clone, Copy, Debug, PartialEq, Eq, Structural)]
pub enum UnaryOp {
    Sqrt,
    Sin,
    Cos,
    Tan,
    Cot,
    Sec,
    Csc,
    Ln,
    Exp,
    Arctan,
    Arcsin,
}

/// Operators that take two arguments.  `D` is differentiation
/// (`(d f x)` is df/dx) and `Int` is indefinite integration
/// (`(int f x)` is the antiderivative of f with respect to x).
#[derive(Clone, Copy, Debug, PartialEq, Eq, Structural)]
pub enum BinaryOp {
    Add,
    Sub,
    Mul,
    Div,
    Pow,
    D,
    Int,
}

/// An expression tree of the integration language.  `Var` only occurs in
/// rewrite patterns; a term of the language itself has none.
#[derive(Debug, PartialEq, Eq)]
pub enum Expr {
    Num(i32),
    Symbol(String),
    Var(char),
    Unary(UnaryOp, Box<Expr>),
    Binary(BinaryOp, Box<Expr>, Box<Expr>),
}

/// A single e-node: an operator whose children are e-class ids.
#[derive(Clone, Debug, PartialEq, Eq)]
pub enum ENode {
    Num(i32),
    Symbol(String),
    Unary(UnaryOp, usize),
    Binary(BinaryOp, usize, usize),
}

impl ENode {
    /// An e-node is a leaf when it has no children.
    pub open spec fn spec_is_leaf(&self) -> bool {
        self is Num || self is Symbol
    }

    pub fn is_leaf(&self) -> (r: bool)
        ensures
            r == self.spec_is_leaf(),
    {
        match self {
            ENode::Num(_) => true,
            ENode::Symbol(_) => true,
            _ => false,
        }
    }
}

impl Expr {
    /// The expression holds an unevaluated derivative or integral somewhere.
    pub open spec fn spec_has_int_or_d(&self) -> bool
        decreases self,
    {
        match self {
            Expr::Unary(_, a) => a.spec_has_int_or_d(),
            Expr::Binary(op, a, b) => op == BinaryOp::Int || op == BinaryOp::D
                || a.spec_has_int_or_d() || b.spec_has_int_or_d(),
            _ => false,
        }
    }

    /// Whether any node of the expression is an `int` or `d` node.
    pub fn has_int_or_d(&self) -> (r: bool)
        ensures
            r == self.spec_has_int_or_d(),
        decreases self,
    {
        match self {
            Expr::Unary(_, a) => a.has_int_or_d(),
            Expr::Binary(op, a, b) => {
                match op {
                    BinaryOp::Int => true,
                    BinaryOp::D => true,
                    _ => a.has_int_or_d() || b.has_int_or_d(),
                }
            },
            _ => false,
        }
    }

    /// The pattern variable `c` occurs in the expression.
    pub open spec fn mentions_var(&self, c: char) -> bool
        decreases self,
    {
        match self {
            Expr::Var(v) => *v == c,
            Expr::Unary(_, a) => a.mentions_var(c),
            Expr::Binary(_, a, b) => a.mentions_var(c) || b.mentions_var(c),
            _ => false,
        }
    }

    /// The expression mentions no free symbol (a pattern built from
    /// variables, numbers and operators only).
    pub open spec fn symbol_free(&self) -> bool
        decreases self,
    {
        match self {
            Expr::Symbol(_) => false,
            Expr::Unary(_, a) => a.symbol_free(),
            Expr::Binary(_, a, b) => a.symbol_free() && b.symbol_free(),
            _ => true,
        }
    }
}

} // verus!
