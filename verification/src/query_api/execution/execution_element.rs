//! What an application executes: queries, alone or in partitions.

use vstd::prelude::*;
use crate::query_api::definition::annotation::Annotation;
use crate::query_api::execution::query::Query;

verus! {

/// Queries run per partition key.
#[derive(Debug)]
pub struct Partition {
    pub query_list: Vec<Query>,
    pub annotations: Vec<Annotation>,
}

/// A query, or a partition of queries.
#[derive(Debug)]
pub enum ExecutionElement {
    Query(Query),
    Partition(Partition),
}

/// The queries of one element: the query, or the partition's queries in order.
pub open spec fn queries_of(e: ExecutionElement) -> Seq<Query> {
    match e {
        ExecutionElement::Query(q) => seq![q],
        ExecutionElement::Partition(p) => p.query_list@,
    }
}

/// The queries of `elements`, in order, partition queries in place.
pub open spec fn element_queries(elements: Seq<ExecutionElement>) -> Seq<Query>
    decreases elements.len(),
{
    if elements.len() == 0 {
        Seq::empty()
    } else {
        element_queries(elements.drop_last()) + queries_of(elements.last())
    }
}

} // verus!
