use vstd::prelude::*;

use crate::errors::{CombKind, ErrModel, EvalError};

verus! {

/// The angle interpretation for trigonometric calls: supplied by the
/// caller on every evaluation, never retained.
#[derive(Clone, Copy, Debug, PartialEq, Eq, Structural)]
pub enum AngleMode {
    Degrees,
    Radians,
}

/// The six binary operators, in order of increasing precedence.
#[derive(Clone, Copy, Debug, PartialEq, Eq, Structural)]
pub enum BinOp {
    Add,
    Sub,
    Mul,
    Div,
    Mod,
    Pow,
}

/// The one-argument named functions of the grammar. `Fact` covers both
/// spellings, `factorial(...)` and `fact(...)`.
#[derive(Clone, Copy, Debug, PartialEq, Eq, Structural)]
pub enum Func1 {
    Sqrt,
    Sin,
    Cos,
    Tan,
    Log,
    Ln,
    Fact,
}

/// Mathematical model of a parsed expression; numeric leaves keep their
/// literal text as a character sequence.
pub enum AstModel {
    Bin(BinOp, Box<AstModel>, Box<AstModel>),
    Call(Func1, Box<AstModel>),
    Comb(CombKind, Box<AstModel>, Box<AstModel>),
    ConstPi,
    ConstE,
    Num(Seq<char>),
}

/// A parsed expression. Leaves hold the literal text of a number; the
/// caller turns it into a numeric value when folding the tree.
#[derive(Debug, PartialEq)]
pub enum Expr {
    /// A binary operator applied to two subexpressions.
    Bin(BinOp, Box<Expr>, Box<Expr>),
    /// A named one-argument function applied to a subexpression.
    Call(Func1, Box<Expr>),
    /// `nPr` or `nCr` applied to two subexpressions.
    Comb(CombKind, Box<Expr>, Box<Expr>),
    /// The named constant `pi`.
    ConstPi,
    /// The named constant `e`.
    ConstE,
    /// A numeric literal, kept as text.
    Num(String),
}

/// The model of an expression tree.
pub open spec fn expr_model(e: Expr) -> AstModel
    decreases e,
{
    match e {
        Expr::Bin(op, a, b) => AstModel::Bin(
            op,
            Box::new(expr_model(*a)),
            Box::new(expr_model(*b)),
        ),
        Expr::Call(f, a) => AstModel::Call(f, Box::new(expr_model(*a))),
        Expr::Comb(k, a, b) => AstModel::Comb(
            k,
            Box::new(expr_model(*a)),
            Box::new(expr_model(*b)),
        ),
        Expr::ConstPi => AstModel::ConstPi,
        Expr::ConstE => AstModel::ConstE,
        Expr::Num(t) => AstModel::Num(t@),
    }
}

impl View for Expr {
    type V = AstModel;

    open spec fn view(&self) -> AstModel {
        expr_model(*self)
    }
}

/// The model of a parse result: expression and error are both replaced
/// by their mathematical views.
pub open spec fn parse_model(r: Result<Expr, EvalError>) -> Result<AstModel, ErrModel> {
    match r {
        Ok(e) => Ok(e@),
        Err(e) => Err(e@),
    }
}

} // verus!
