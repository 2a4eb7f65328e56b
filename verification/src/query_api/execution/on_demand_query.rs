//! Queries run once, on demand, against a store.

use vstd::prelude::*;
use crate::query_api::eventflux_element::EventFluxElement;
use crate::query_api::expression::expression::Expression;
use super::query::{
    Selector, OutputStream, OutputStreamAction, OutputEventType, DeleteStreamAction, UpdateStreamAction,
    UpdateOrInsertStreamAction, UpdateSet,
};

verus! {

/// What an on-demand query does.
#[derive(Debug, Clone, Copy, PartialEq, Eq, Structural)]
pub enum OnDemandQueryType {
    Insert,
    Delete,
    Update,
    Select,
    UpdateOrInsert,
    Find,
}

impl Default for OnDemandQueryType {
    fn default() -> (r: Self)
        ensures
            r == OnDemandQueryType::Select,
    {
        OnDemandQueryType::Select
    }
}

/// The store an on-demand query reads.
#[derive(Debug)]
pub struct InputStore {
    pub store_id: String,
    pub store_reference_id: Option<String>,
    pub on_condition: Option<Expression>,
}

impl InputStore {
    pub fn store(store_id: String) -> (r: Self)
        ensures
            r.store_id@ == store_id@,
            r.store_reference_id is None,
            r.on_condition is None,
    {
        InputStore { store_id, store_reference_id: None, on_condition: None }
    }

    /// The same store read only where `condition` holds.
    pub fn on(self, condition: Expression) -> (r: Self)
        ensures
            r.store_id@ == self.store_id@,
            r.on_condition == Some(condition),
    {
        InputStore { store_id: self.store_id, store_reference_id: self.store_reference_id, on_condition: Some(condition) }
    }
}

/// A query run once against a store.
#[derive(Debug)]
pub struct OnDemandQuery {
    pub eventflux_element: EventFluxElement,
    pub input_store: Option<InputStore>,
    pub selector: Selector,
    pub output_stream: OutputStream,
    pub on_demand_query_type: Option<OnDemandQueryType>,
}

impl OnDemandQuery {
    /// A query with no store, an empty selector, returning its results.
    pub fn new() -> (r: Self)
        ensures
            r.input_store is None,
            r.selector.selection_list@.len() == 0,
            r.selector.having_expression is None,
            r.output_stream.action is Return,
            r.output_stream.output_event_type is None,
            r.on_demand_query_type is None,
    {
        OnDemandQuery {
            eventflux_element: EventFluxElement::default(),
            input_store: None,
            selector: Selector::new(),
            output_stream: OutputStream::default_return_stream(),
            on_demand_query_type: None,
        }
    }

    /// Same as `new`.
    pub fn query() -> (r: Self)
        ensures
            r.input_store is None,
            r.selector.selection_list@.len() == 0,
            r.output_stream.action is Return,
            r.output_stream.output_event_type is None,
            r.on_demand_query_type is None,
    {
        Self::new()
    }

    /// Reads from `input_store`.
    pub fn from(self, input_store: InputStore) -> (r: Self)
        ensures
            r.input_store == Some(input_store),
            r.selector == self.selector,
            r.output_stream == self.output_stream,
            r.on_demand_query_type == self.on_demand_query_type,
    {
        let mut q = self;
        q.input_store = Some(input_store);
        q
    }

    /// Selects with `selector`.
    pub fn select(self, selector: Selector) -> (r: Self)
        ensures
            r.selector == selector,
            r.input_store == self.input_store,
            r.output_stream == self.output_stream,
            r.on_demand_query_type == self.on_demand_query_type,
    {
        let mut q = self;
        q.selector = selector;
        q
    }

    /// Writes to `output_stream`; an output without an event type emits current events.
    pub fn out_stream(self, output_stream: OutputStream) -> (r: Self)
        ensures
            r.output_stream.action == output_stream.action,
            r.output_stream.output_event_type == (match output_stream.output_event_type {
                Some(t) => Some(t),
                None => Some(OutputEventType::CurrentEvents),
            }),
            r.input_store == self.input_store,
            r.selector == self.selector,
            r.on_demand_query_type == self.on_demand_query_type,
    {
        let mut q = self;
        q.output_stream = output_stream;
        if q.output_stream.get_output_event_type().is_none() {
            q.output_stream.set_output_event_type_if_none(OutputEventType::CurrentEvents);
        }
        q
    }

    /// Sets the kind of query.
    pub fn set_type(self, query_type: OnDemandQueryType) -> (r: Self)
        ensures
            r.on_demand_query_type == Some(query_type),
            r.input_store == self.input_store,
            r.selector == self.selector,
            r.output_stream == self.output_stream,
    {
        let mut q = self;
        q.on_demand_query_type = Some(query_type);
        q
    }

    /// Deletes the rows of `output_table_id` where `on_deleting_expression` holds.
    pub fn delete_by(self, output_table_id: String, on_deleting_expression: Expression) -> (r: Self)
        ensures
            r.output_stream.action matches OutputStreamAction::Delete(a)
                && a.target_id@ == output_table_id@ && a.on_delete_expression == on_deleting_expression,
            r.output_stream.output_event_type == Some(OutputEventType::CurrentEvents),
            r.input_store == self.input_store,
            r.selector == self.selector,
            r.on_demand_query_type == self.on_demand_query_type,
    {
        let mut q = self;
        let action = DeleteStreamAction { target_id: output_table_id, on_delete_expression: on_deleting_expression };
        q.output_stream = OutputStream::new(OutputStreamAction::Delete(action), Some(OutputEventType::CurrentEvents));
        q
    }

    /// Updates the rows of `output_table_id` where `on_update_expression` holds.
    pub fn update_by(self, output_table_id: String, on_update_expression: Expression) -> (r: Self)
        ensures
            r.output_stream.action matches OutputStreamAction::Update(a)
                && a.target_id@ == output_table_id@ && a.on_update_expression == on_update_expression
                && a.update_set_clause is None,
            r.output_stream.output_event_type == Some(OutputEventType::CurrentEvents),
            r.input_store == self.input_store,
            r.selector == self.selector,
            r.on_demand_query_type == self.on_demand_query_type,
    {
        let mut q = self;
        let action = UpdateStreamAction { target_id: output_table_id, on_update_expression, update_set_clause: None };
        q.output_stream = OutputStream::new(OutputStreamAction::Update(action), Some(OutputEventType::CurrentEvents));
        q
    }

    /// Updates the rows of `output_table_id` where `on_update_expression` holds,
    /// with the given assignments.
    pub fn update_by_with_set(self, output_table_id: String, update_set_attributes: UpdateSet, on_update_expression: Expression) -> (r: Self)
        ensures
            r.output_stream.action matches OutputStreamAction::Update(a)
                && a.target_id@ == output_table_id@ && a.on_update_expression == on_update_expression
                && a.update_set_clause == Some(update_set_attributes),
            r.output_stream.output_event_type == Some(OutputEventType::CurrentEvents),
            r.input_store == self.input_store,
            r.selector == self.selector,
            r.on_demand_query_type == self.on_demand_query_type,
    {
        let mut q = self;
        let action = UpdateStreamAction { target_id: output_table_id, on_update_expression, update_set_clause: Some(update_set_attributes) };
        q.output_stream = OutputStream::new(OutputStreamAction::Update(action), Some(OutputEventType::CurrentEvents));
        q
    }

    /// Updates the rows of `output_table_id` where `on_update_expression` holds,
    /// inserting when none does.
    pub fn update_or_insert_by(self, output_table_id: String, update_set_attributes: UpdateSet, on_update_expression: Expression) -> (r: Self)
        ensures
            r.output_stream.action matches OutputStreamAction::UpdateOrInsert(a)
                && a.target_id@ == output_table_id@ && a.on_update_expression == on_update_expression
                && a.update_set_clause == Some(update_set_attributes),
            r.output_stream.output_event_type == Some(OutputEventType::CurrentEvents),
            r.input_store == self.input_store,
            r.selector == self.selector,
            r.on_demand_query_type == self.on_demand_query_type,
    {
        let mut q = self;
        let action = UpdateOrInsertStreamAction { target_id: output_table_id, on_update_expression, update_set_clause: Some(update_set_attributes) };
        q.output_stream = OutputStream::new(OutputStreamAction::UpdateOrInsert(action), Some(OutputEventType::CurrentEvents));
        q
    }

    pub fn get_input_store(&self) -> (r: Option<&InputStore>)
        ensures
            r matches Some(s) ==> self.input_store == Some(*s),
            r is None ==> self.input_store is None,
    {
        match &self.input_store {
            Some(s) => Some(s),
            None => None,
        }
    }

    pub fn get_selector(&self) -> (r: &Selector)
        ensures
            *r == self.selector,
    {
        &self.selector
    }

    pub fn get_output_stream(&self) -> (r: &OutputStream)
        ensures
            *r == self.output_stream,
    {
        &self.output_stream
    }

    pub fn get_type(&self) -> (r: Option<OnDemandQueryType>)
        ensures
            r == self.on_demand_query_type,
    {
        self.on_demand_query_type
    }
}

impl Default for OnDemandQuery {
    fn default() -> (r: Self)
        ensures
            r.input_store is None,
            r.output_stream.action is Return,
            r.on_demand_query_type is None,
    {
        Self::new()
    }
}

} // verus!
