//! `CASE` expressions.

use vstd::prelude::*;
use super::expression::Expression;
use crate::query_api::eventflux_element::EventFluxElement;

verus! {

/// `CASE [operand] WHEN .. THEN .. ELSE .. END`.
#[derive(Debug)]
pub struct Case {
    pub operand: Option<Box<Expression>>,
    pub when_clauses: Vec<WhenClause>,
    pub else_result: Box<Expression>,
    pub eventflux_element: EventFluxElement,
}

/// One `WHEN condition THEN result` branch.
#[derive(Debug)]
pub struct WhenClause {
    pub condition: Box<Expression>,
    pub result: Box<Expression>,
}

impl Case {
    pub fn new(operand: Option<Box<Expression>>, when_clauses: Vec<WhenClause>, else_result: Box<Expression>) -> (r: Self)
        ensures
            r.operand == operand,
            r.when_clauses@ == when_clauses@,
            r.else_result == else_result,
    {
        Case { operand, when_clauses, else_result, eventflux_element: EventFluxElement::default() }
    }
}

impl WhenClause {
    pub fn new(condition: Box<Expression>, result: Box<Expression>) -> (r: Self)
        ensures
            r.condition == condition,
            r.result == result,
    {
        WhenClause { condition, result }
    }
}

} // verus!
