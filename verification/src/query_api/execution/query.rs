//! Queries: where events come from, what is selected, and where results go.

use vstd::prelude::*;
use crate::query_api::execution::input_stream::InputStreamTrait;
use crate::query_api::eventflux_element::EventFluxElement;
use crate::query_api::expression::expression::{Expression, Variable};
use crate::query_api::definition::annotation::Annotation;
use super::input_stream::{InputStream, stream_ids_of, unique_ids};
use crate::property_map::string_views;

verus! {

/// One selected output attribute, optionally renamed.
#[derive(Debug)]
pub struct OutputAttribute {
    pub rename: Option<String>,
    pub expression: Expression,
}

/// The `SELECT` part of a query.
#[derive(Debug)]
pub struct Selector {
    pub selection_list: Vec<OutputAttribute>,
    pub group_by_list: Vec<Variable>,
    pub having_expression: Option<Expression>,
}

impl Selector {
    /// A selector that selects nothing explicitly.
    pub fn new() -> (r: Self)
        ensures
            r.selection_list@.len() == 0,
            r.group_by_list@.len() == 0,
            r.having_expression is None,
    {
        Selector { selection_list: Vec::new(), group_by_list: Vec::new(), having_expression: None }
    }

    /// The `HAVING` condition, if any.
    pub fn get_having_expression(&self) -> (r: Option<&Expression>)
        ensures
            r matches Some(e) ==> self.having_expression == Some(*e),
            r is None ==> self.having_expression is None,
    {
        match &self.having_expression {
            Some(e) => Some(e),
            None => None,
        }
    }

    /// The same selector with a `HAVING` condition.
    pub fn having(self, condition: Expression) -> (r: Self)
        ensures
            r.having_expression == Some(condition),
            r.selection_list@ == self.selection_list@,
    {
        Selector { selection_list: self.selection_list, group_by_list: self.group_by_list, having_expression: Some(condition) }
    }
}

/// Which events a query emits.
#[derive(Debug, Clone, Copy, PartialEq, Eq, Structural)]
pub enum OutputEventType {
    CurrentEvents,
    ExpiredEvents,
    AllEvents,
}

/// `INSERT INTO target`.
#[derive(Debug, Clone)]
pub struct InsertIntoStreamAction {
    pub target_id: String,
    pub is_inner_stream: bool,
    pub is_fault_stream: bool,
}

/// Delete matching rows of a table.
#[derive(Debug)]
pub struct DeleteStreamAction {
    pub target_id: String,
    pub on_delete_expression: Expression,
}

/// `SET attribute = expression, ...` of an update.
#[derive(Debug)]
pub struct UpdateSet {
    pub set_attribute_list: Vec<(Variable, Expression)>,
}

impl UpdateSet {
    pub fn new() -> (r: Self)
        ensures
            r.set_attribute_list@.len() == 0,
    {
        UpdateSet { set_attribute_list: Vec::new() }
    }

    /// Adds one assignment.
    pub fn set(self, variable: Variable, value: Expression) -> (r: Self)
        ensures
            r.set_attribute_list@ == self.set_attribute_list@.push((variable, value)),
    {
        let mut u = self;
        u.set_attribute_list.push((variable, value));
        u
    }
}

/// Update matching rows of a table.
#[derive(Debug)]
pub struct UpdateStreamAction {
    pub target_id: String,
    pub on_update_expression: Expression,
    pub update_set_clause: Option<UpdateSet>,
}

/// Update matching rows of a table, inserting when none matches.
#[derive(Debug)]
pub struct UpdateOrInsertStreamAction {
    pub target_id: String,
    pub on_update_expression: Expression,
    pub update_set_clause: Option<UpdateSet>,
}

/// What is done with a query's results.
#[derive(Debug)]
pub enum OutputStreamAction {
    InsertInto(InsertIntoStreamAction),
    Return,
    Delete(DeleteStreamAction),
    Update(UpdateStreamAction),
    UpdateOrInsert(UpdateOrInsertStreamAction),
}

/// The output part of a query.
#[derive(Debug)]
pub struct OutputStream {
    pub eventflux_element: EventFluxElement,
    pub action: OutputStreamAction,
    pub output_event_type: Option<OutputEventType>,
}

/// The stream or table that an output action writes to.
pub open spec fn action_target(a: OutputStreamAction) -> Option<Seq<char>> {
    match a {
        OutputStreamAction::InsertInto(x) => Some(x.target_id@),
        OutputStreamAction::Return => None,
        OutputStreamAction::Delete(x) => Some(x.target_id@),
        OutputStreamAction::Update(x) => Some(x.target_id@),
        OutputStreamAction::UpdateOrInsert(x) => Some(x.target_id@),
    }
}

impl OutputStream {
    pub fn new(action: OutputStreamAction, output_event_type: Option<OutputEventType>) -> (r: Self)
        ensures
            r.action == action,
            r.output_event_type == output_event_type,
    {
        OutputStream { eventflux_element: EventFluxElement::default(), action, output_event_type }
    }

    /// Results returned to the caller.
    pub fn default_return_stream() -> (r: Self)
        ensures
            r.action is Return,
            r.output_event_type is None,
    {
        OutputStream { eventflux_element: EventFluxElement::default(), action: OutputStreamAction::Return, output_event_type: None }
    }

    /// Results inserted into `target_id`.
    pub fn insert_into(target_id: String) -> (r: Self)
        ensures
            r.action matches OutputStreamAction::InsertInto(a) && a.target_id@ == target_id@
                && !a.is_inner_stream && !a.is_fault_stream,
            r.output_event_type is None,
    {
        OutputStream {
            eventflux_element: EventFluxElement::default(),
            action: OutputStreamAction::InsertInto(InsertIntoStreamAction { target_id, is_inner_stream: false, is_fault_stream: false }),
            output_event_type: None,
        }
    }

    pub fn get_output_event_type(&self) -> (r: Option<OutputEventType>)
        ensures
            r == self.output_event_type,
    {
        self.output_event_type
    }

    /// Sets the event type unless one is set already.
    pub fn set_output_event_type_if_none(&mut self, t: OutputEventType)
        ensures
            final(self).output_event_type == (if old(self).output_event_type is None { Some(t) } else { old(self).output_event_type }),
            final(self).action == old(self).action,
    {
        if self.output_event_type.is_none() {
            self.output_event_type = Some(t);
        }
    }

    /// The stream or table written to.
    pub fn get_target_id(&self) -> (r: Option<&str>)
        ensures
            r matches Some(s) ==> action_target(self.action) == Some(s@),
            r is None ==> action_target(self.action) is None,
    {
        match &self.action {
            OutputStreamAction::InsertInto(a) => Some(a.target_id.as_str()),
            OutputStreamAction::Return => None,
            OutputStreamAction::Delete(a) => Some(a.target_id.as_str()),
            OutputStreamAction::Update(a) => Some(a.target_id.as_str()),
            OutputStreamAction::UpdateOrInsert(a) => Some(a.target_id.as_str()),
        }
    }
}

/// How often results are emitted.
#[derive(Debug, Clone, Copy, PartialEq, Eq, Structural)]
pub enum OutputRate {
    AllEvents,
    Events(i64),
    TimeMillis(i64),
    SnapshotMillis(i64),
}

/// A query: `FROM input SELECT selector INSERT INTO output`.
#[derive(Debug)]
pub struct Query {
    pub eventflux_element: EventFluxElement,
    pub input_stream: Option<InputStream>,
    pub selector: Selector,
    pub output_stream: OutputStream,
    pub output_rate: Option<OutputRate>,
    pub annotations: Vec<Annotation>,
}

/// The streams a query reads, each once, in order of first occurrence.
pub open spec fn query_sources(q: Query) -> Seq<Seq<char>> {
    match q.input_stream {
        Some(s) => unique_ids(stream_ids_of(s)),
        None => Seq::empty(),
    }
}

/// The stream a query inserts into, if it inserts into one.
pub open spec fn query_target(q: Query) -> Option<Seq<char>> {
    match q.output_stream.action {
        OutputStreamAction::InsertInto(a) => Some(a.target_id@),
        _ => None,
    }
}

impl Query {
    pub fn get_input_stream(&self) -> (r: Option<&InputStream>)
        ensures
            r matches Some(s) ==> self.input_stream == Some(*s),
            r is None ==> self.input_stream is None,
    {
        match &self.input_stream {
            Some(s) => Some(s),
            None => None,
        }
    }

    pub fn get_selector(&self) -> (r: &Selector)
        ensures
            *r == self.selector,
    {
        &self.selector
    }

    pub fn get_output_stream(&self) -> (r: &OutputStream)
        ensures
            *r == self.output_stream,
    {
        &self.output_stream
    }

    /// The streams the query reads, each once.
    pub fn get_source_streams(&self) -> (r: Vec<String>)
        ensures
            string_views(r@) == query_sources(*self),
    {
        match &self.input_stream {
            Some(s) => s.get_unique_stream_ids(),
            None => {
                let r: Vec<String> = Vec::new();
                proof {
                    assert(string_views(r@) =~= Seq::<Seq<char>>::empty());
                }
                r
            },
        }
    }

    /// The stream the query inserts into, if any.
    pub fn get_target_stream(&self) -> (r: Option<String>)
        ensures
            r matches Some(s) ==> query_target(*self) == Some(s@),
            r is None ==> query_target(*self) is None,
    {
        match &self.output_stream.action {
            OutputStreamAction::InsertInto(a) => Some(a.target_id.clone()),
            _ => None,
        }
    }
}

} // verus!
