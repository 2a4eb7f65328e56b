//! Events and attribute values.

use vstd::prelude::*;
use crate::engine::table::rows::copy_row;

verus! {

/// The value of one attribute of an event. Floating-point values are held as
/// the IEEE-754 bit patterns of their values.
#[derive(Debug, Clone, PartialEq)]
pub enum AttributeValue {
    String(String),
    Int(i32),
    Long(i64),
    Float(u32),
    Double(u64),
    Bool(bool),
    Null,
}

/// The mathematical value of an attribute: text as a character sequence.
pub enum AttrView {
    String(Seq<char>),
    Int(i32),
    Long(i64),
    Float(u32),
    Double(u64),
    Bool(bool),
    Null,
}

impl View for AttributeValue {
    type V = AttrView;

    open spec fn view(&self) -> AttrView {
        match self {
            AttributeValue::String(s) => AttrView::String(s@),
            AttributeValue::Int(i) => AttrView::Int(*i),
            AttributeValue::Long(l) => AttrView::Long(*l),
            AttributeValue::Float(f) => AttrView::Float(*f),
            AttributeValue::Double(d) => AttrView::Double(*d),
            AttributeValue::Bool(b) => AttrView::Bool(*b),
            AttributeValue::Null => AttrView::Null,
        }
    }
}

/// The views of a sequence of attribute values.
pub open spec fn attr_views(s: Seq<AttributeValue>) -> Seq<AttrView> {
    s.map_values(|a: AttributeValue| a@)
}

/// An event: a timestamp and the values of its attributes.
#[derive(Debug, Clone)]
pub struct Event {
    pub id: u64,
    pub timestamp: i64,
    pub data: Vec<AttributeValue>,
    pub is_expired: bool,
}

impl Event {
    /// An event with the given timestamp and data.
    pub fn new_with_data(timestamp: i64, data: Vec<AttributeValue>) -> (r: Self)
        ensures
            r.timestamp == timestamp,
            r.data@ == data@,
            !r.is_expired,
    {
        Event { id: 0, timestamp, data, is_expired: false }
    }
}

/// The timestamp and attribute values of an event.
pub open spec fn event_view(e: Event) -> (i64, Seq<AttrView>) {
    (e.timestamp, attr_views(e.data@))
}

/// The timestamps and attribute values of a sequence of events.
pub open spec fn events_view(s: Seq<Event>) -> Seq<(i64, Seq<AttrView>)> {
    s.map_values(|e: Event| event_view(e))
}

/// A copy of an event.
pub fn copy_event(e: &Event) -> (r: Event)
    ensures
        event_view(r) == event_view(*e),
        r.id == e.id,
        r.is_expired == e.is_expired,
{
    Event { id: e.id, timestamp: e.timestamp, data: copy_row(e.data.as_slice()), is_expired: e.is_expired }
}

} // verus!
