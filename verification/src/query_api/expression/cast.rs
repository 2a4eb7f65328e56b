//! `CAST(expression AS type)`.

use vstd::prelude::*;
use super::expression::Expression;
use crate::query_api::definition::attribute::AttributeType;
use crate::query_api::eventflux_element::EventFluxElement;

verus! {

/// A conversion of an expression's value to another type.
#[derive(Debug)]
pub struct Cast {
    pub expression: Box<Expression>,
    pub target_type: AttributeType,
    pub eventflux_element: EventFluxElement,
}

impl Cast {
    pub fn new(expression: Expression, target_type: AttributeType) -> (r: Self)
        ensures
            *r.expression == expression,
            r.target_type == target_type,
    {
        Cast { expression: Box::new(expression), target_type, eventflux_element: EventFluxElement::default() }
    }
}

} // verus!
