//! Executors: compiled expressions that compute a value from an event.

pub mod case_expression_executor;
pub mod string_functions;

use vstd::prelude::*;
use crate::engine::event::{AttributeValue, AttrView, Event};
use crate::query_api::definition::attribute::AttributeType;

verus! {

/// The view of an optional attribute value.
pub open spec fn opt_attr(v: Option<AttributeValue>) -> Option<AttrView> {
    match v {
        Some(a) => Some(a@),
        None => None,
    }
}

/// A compiled expression.
pub trait ExpressionExecutor {
    /// The type of the values the executor produces.
    spec fn return_type(&self) -> AttributeType;

    /// The value the executor gives on `event` (`None`: no value).
    spec fn value_on(&self, event: Option<&Event>) -> Option<AttrView>;

    /// The value of the expression on `event`, if it has one.
    fn execute(&self, event: Option<&Event>) -> (r: Option<AttributeValue>)
        ensures
            opt_attr(r) == self.value_on(event),
    ;

    fn get_return_type(&self) -> (r: AttributeType)
        ensures
            r == self.return_type(),
    ;
}

} // verus!
