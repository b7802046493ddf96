use vstd::prelude::*;

verus! {

/// The two-argument combinatorial operators of the expression grammar.
#[derive(Clone, Copy, Debug, PartialEq, Eq, Structural)]
pub enum CombKind {
    /// `nPr(n, r)`, the number of permutations.
    Perm,
    /// `nCr(n, r)`, the number of combinations.
    Comb,
}

/// Mathematical model of an evaluation error: the same variants as
/// [`EvalError`], with the offending substring as a character sequence.
pub enum ErrModel {
    InvalidExpression(Seq<char>),
    DivisionByZero,
    InvalidCombArgs(CombKind),
    CombMissingComma(CombKind),
    NTooLarge,
}

/// An error produced while parsing or evaluating an expression.
///
/// Every failure of the evaluator is reported through one of these variants;
/// [`EvalError::message`] renders the exact user-facing text of each.
#[derive(Debug, PartialEq, Eq)]
pub enum EvalError {
    /// A terminal token that is not a numeric literal, with the token text.
    InvalidExpression(String),
    /// A division node whose right operand evaluated to zero.
    DivisionByZero,
    /// `nPr`/`nCr` arguments that are negative, fractional, or out of range.
    InvalidCombArgs(CombKind),
    /// `nPr`/`nCr` whose argument list contains no comma.
    CombMissingComma(CombKind),
    /// A combinatorial argument above the safe bound of 170.
    NTooLarge,
}

impl View for EvalError {
    type V = ErrModel;

    open spec fn view(&self) -> ErrModel {
        match self {
            EvalError::InvalidExpression(s) => ErrModel::InvalidExpression(s@),
            EvalError::DivisionByZero => ErrModel::DivisionByZero,
            EvalError::InvalidCombArgs(k) => ErrModel::InvalidCombArgs(*k),
            EvalError::CombMissingComma(k) => ErrModel::CombMissingComma(*k),
            EvalError::NTooLarge => ErrModel::NTooLarge,
        }
    }
}

/// The user-facing text of each error, as a character sequence.
pub open spec fn spec_message(e: ErrModel) -> Seq<char> {
    match e {
        ErrModel::InvalidExpression(s) => "Invalid expression: "@ + s,
        ErrModel::DivisionByZero => "Division by zero"@,
        ErrModel::InvalidCombArgs(CombKind::Perm) => "Invalid nPr arguments"@,
        ErrModel::InvalidCombArgs(CombKind::Comb) => "Invalid nCr arguments"@,
        ErrModel::CombMissingComma(CombKind::Perm) => "nPr requires two arguments: nPr(n,r)"@,
        ErrModel::CombMissingComma(CombKind::Comb) => "nCr requires two arguments: nCr(n,r)"@,
        ErrModel::NTooLarge => "n too large (max 170)"@,
    }
}

impl EvalError {
    /// Renders the error as its user-facing message.
    pub fn message(&self) -> (r: String)
        ensures
            r@ == spec_message(self@),
    {
        match self {
            EvalError::InvalidExpression(s) => {
                let mut m = String::from_str("Invalid expression: ");
                m.append(s.as_str());
                m
            },
            EvalError::DivisionByZero => String::from_str("Division by zero"),
            EvalError::InvalidCombArgs(CombKind::Perm) => String::from_str(
                "Invalid nPr arguments",
            ),
            EvalError::InvalidCombArgs(CombKind::Comb) => String::from_str(
                "Invalid nCr arguments",
            ),
            EvalError::CombMissingComma(CombKind::Perm) => String::from_str(
                "nPr requires two arguments: nPr(n,r)",
            ),
            EvalError::CombMissingComma(CombKind::Comb) => String::from_str(
                "nCr requires two arguments: nCr(n,r)",
            ),
            EvalError::NTooLarge => String::from_str("n too large (max 170)"),
        }
    }
}

} // verus!
