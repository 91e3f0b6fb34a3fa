//! An integer calculator: text is cut into tokens, the tokens are brought
//! into postfix order, the postfix sequence is folded into an expression tree,
//! and the tree is evaluated over signed 64-bit integers.
pub mod error;
pub mod execute;
pub mod expression;

use crate::error::{CalcError, CalcFault};
use crate::execute::{execute, value_of};
use crate::expression::infix::{lemma_expression_of_written, written};
use crate::expression::token::text::text_of;
use crate::expression::{expression_of, parse_expr, Expression};
use vstd::prelude::*;
use vstd::string::StringSliceAdditionalSpecFns;

verus! {

/// The value of a text: the value of its expression tree, or the fault of
/// the first stage that has one.
pub open spec fn result_of(text: Seq<u8>) -> Result<int, CalcFault> {
    match expression_of(text) {
        Err(fault) => Err(fault),
        Ok(tree) => match value_of(tree) {
            Err(fault) => Err(CalcFault::Execute(fault)),
            Ok(v) => Ok(v),
        },
    }
}

/// Whether `r` is an outcome of the calculation on `text`: the value of the
/// text, or the error that reports its fault.
pub open spec fn is_outcome(r: Result<i64, CalcError>, text: &str) -> bool {
    match result_of(text.spec_bytes()) {
        Ok(v) => r matches Ok(x) && x == v,
        Err(fault) => r matches Err(e) && e.reports(fault, text@),
    }
}

/// Computes the value of a line of text: tokens, postfix order, tree,
/// evaluation.
pub fn calculate(text: &str) -> (r: Result<i64, CalcError>)
    ensures
        is_outcome(r, text),
{
    let expression = match parse_expr(text) {
        Ok(expression) => expression,
        Err(e) => return Err(e),
    };
    match execute(expression) {
        Ok(value) => Ok(value),
        Err(e) => Err(CalcError::Execute(e)),
    }
}

/// A calculation keeps no state: whatever two runs on one text give, they
/// give the same value, or errors of the same kind with the same message.
pub proof fn lemma_calculation_repeats(
    text: &str,
    first: Result<i64, CalcError>,
    second: Result<i64, CalcError>,
)
    requires
        is_outcome(first, text),
        is_outcome(second, text),
    ensures
        match first {
            Ok(v) => second == Ok::<i64, CalcError>(v),
            Err(e) => second matches Err(other) && e.same_kind(other),
        },
{
}

/// The value of an expression that is written out and read again is the
/// value of the expression: the text of a tree's writing has the value, or
/// the fault, of the tree.
pub proof fn lemma_result_of_written(tree: Expression, extra: spec_fn(Expression) -> bool)
    ensures
        result_of(text_of(written(tree, extra))) == match value_of(tree) {
            Ok(v) => Ok::<int, CalcFault>(v),
            Err(fault) => Err::<int, CalcFault>(CalcFault::Execute(fault)),
        },
{
    lemma_expression_of_written(tree, extra);
}

} // verus!
