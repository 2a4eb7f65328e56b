//! Input streams of queries: a single stream, a join of two, or a pattern or
//! sequence over several.

use vstd::prelude::*;
use crate::query_api::eventflux_element::EventFluxElement;
use crate::query_api::expression::expression::{Expression, Constant};
use super::query::Query;
use crate::property_map::{string_views, lemma_string_views_push, push_unique};
use crate::text::owned;

verus! {

/// A handler applied to the events of a single stream.
#[derive(Debug)]
pub enum StreamHandler {
    /// `WHERE condition`.
    Filter(Expression),
    /// A window with its parameters.
    Window(String, Vec<Expression>),
}

/// A single named stream, optionally aliased, with its handlers.
#[derive(Debug)]
pub struct SingleInputStream {
    pub eventflux_element: EventFluxElement,
    pub is_inner_stream: bool,
    pub is_fault_stream: bool,
    pub stream_id: String,
    pub stream_reference_id: Option<String>,
    pub stream_handlers: Vec<StreamHandler>,
    /// The query whose results an anonymous stream carries.
    pub anonymous_query: Option<Box<Query>>,
}

impl SingleInputStream {
    pub fn new_basic(
        stream_id: String,
        is_inner_stream: bool,
        is_fault_stream: bool,
        stream_reference_id: Option<String>,
        stream_handlers: Vec<StreamHandler>,
    ) -> (r: Self)
        ensures
            r.stream_id@ == stream_id@,
            r.is_inner_stream == is_inner_stream,
            r.is_fault_stream == is_fault_stream,
            r.stream_reference_id == stream_reference_id,
            r.stream_handlers@ == stream_handlers@,
            r.anonymous_query is None,
    {
        SingleInputStream {
            eventflux_element: EventFluxElement::default(),
            is_inner_stream,
            is_fault_stream,
            stream_id,
            stream_reference_id,
            stream_handlers,
            anonymous_query: None,
        }
    }

    pub fn new_basic_from_id(stream_id: String) -> (r: Self)
        ensures
            r.stream_id@ == stream_id@,
            !r.is_inner_stream,
            !r.is_fault_stream,
            r.stream_reference_id is None,
            r.stream_handlers@.len() == 0,
    {
        Self::new_basic(stream_id, false, false, None, Vec::new())
    }

    pub fn new_basic_from_ref_id(stream_reference_id: String, stream_id: String) -> (r: Self)
        ensures
            r.stream_id@ == stream_id@,
            !r.is_inner_stream,
            (r.stream_reference_id matches Some(s) && s@ == stream_reference_id@),
            r.stream_handlers@.len() == 0,
    {
        Self::new_basic(stream_id, false, false, Some(stream_reference_id), Vec::new())
    }

    pub fn new_basic_inner_from_id(stream_id: String) -> (r: Self)
        ensures
            r.stream_id@ == stream_id@,
            r.is_inner_stream,
            r.stream_reference_id is None,
            r.stream_handlers@.len() == 0,
    {
        Self::new_basic(stream_id, true, false, None, Vec::new())
    }

    /// A stream carrying the results of `query`, named after its target (or
    /// `Anonymous` when it has none).
    pub fn new_anonymous_from_query(query: Query) -> (r: Self)
        ensures
            r.anonymous_query == Some(Box::new(query)),
            r.stream_handlers@.len() == 0,
    {
        let id = match query.output_stream.get_target_id() {
            Some(t) => owned(t),
            None => owned("Anonymous"),
        };
        SingleInputStream {
            eventflux_element: EventFluxElement::default(),
            is_inner_stream: false,
            is_fault_stream: false,
            stream_id: id,
            stream_reference_id: None,
            stream_handlers: Vec::new(),
            anonymous_query: Some(Box::new(query)),
        }
    }

    pub fn get_stream_id_str(&self) -> (r: &str)
        ensures
            r@ == self.stream_id@,
    {
        self.stream_id.as_str()
    }

    pub fn get_stream_reference_id_str(&self) -> (r: Option<&str>)
        ensures
            r matches Some(s) ==> self.stream_reference_id matches Some(t) && s@ == t@,
            r is None ==> self.stream_reference_id is None,
    {
        match &self.stream_reference_id {
            Some(s) => Some(s.as_str()),
            None => None,
        }
    }

    pub fn get_stream_handlers(&self) -> (r: &Vec<StreamHandler>)
        ensures
            r@ == self.stream_handlers@,
    {
        &self.stream_handlers
    }

    /// The same stream with a `WHERE` filter added.
    pub fn filter(self, condition: Expression) -> (r: Self)
        ensures
            r.stream_handlers@ == self.stream_handlers@.push(StreamHandler::Filter(condition)),
            r.stream_id@ == self.stream_id@,
            r.stream_reference_id == self.stream_reference_id,
    {
        let mut s = self;
        s.stream_handlers.push(StreamHandler::Filter(condition));
        s
    }
}

/// Kinds of join.
#[derive(Debug, Clone, Copy, PartialEq, Eq, Structural)]
pub enum JoinType {
    Join,
    InnerJoin,
    LeftOuterJoin,
    RightOuterJoin,
    FullOuterJoin,
}

/// Which side's events trigger join output.
#[derive(Debug, Clone, Copy, PartialEq, Eq, Structural)]
pub enum EventTrigger {
    Left,
    Right,
    All,
}

/// A time range restricting an aggregation join.
#[derive(Debug)]
pub struct Within {
    pub start: Expression,
    pub end: Option<Expression>,
}

/// Two single streams joined.
#[derive(Debug)]
pub struct JoinInputStream {
    pub eventflux_element: EventFluxElement,
    pub left_input_stream: SingleInputStream,
    pub join_type: JoinType,
    pub right_input_stream: SingleInputStream,
    pub on_compare: Option<Expression>,
    pub trigger: EventTrigger,
    pub within: Option<Within>,
    pub per: Option<Expression>,
}

/// Logical combinations in patterns.
#[derive(Debug, Clone, Copy, PartialEq, Eq, Structural)]
pub enum LogicalStateType {
    And,
    Or,
}

/// A pattern or sequence over streams.
#[derive(Debug)]
pub enum StateElement {
    Stream(SingleInputStream),
    /// The first element followed by the second.
    Next(Box<StateElement>, Box<StateElement>),
    Logical(Box<StateElement>, LogicalStateType, Box<StateElement>),
    /// The element repeated; the pattern restarts after each match.
    Every(Box<StateElement>),
    /// The element matched between `min` and `max` times.
    Count(Box<StateElement>, i32, i32),
}

/// Whether a state stream is a pattern or a sequence.
#[derive(Debug, Clone, Copy, PartialEq, Eq, Structural)]
pub enum StateInputStreamType {
    Pattern,
    Sequence,
}

/// A pattern or sequence input.
#[derive(Debug)]
pub struct StateInputStream {
    pub eventflux_element: EventFluxElement,
    pub state_type: StateInputStreamType,
    pub state_element: StateElement,
    pub within_time: Option<Constant>,
}

impl StateInputStream {
    pub fn pattern_stream(state_element: StateElement, within_time: Option<Constant>) -> (r: Self)
        ensures
            r.state_type == StateInputStreamType::Pattern,
            r.state_element == state_element,
            r.within_time == within_time,
    {
        StateInputStream { eventflux_element: EventFluxElement::default(), state_type: StateInputStreamType::Pattern, state_element, within_time }
    }

    pub fn sequence_stream(state_element: StateElement, within_time: Option<Constant>) -> (r: Self)
        ensures
            r.state_type == StateInputStreamType::Sequence,
            r.state_element == state_element,
            r.within_time == within_time,
    {
        StateInputStream { eventflux_element: EventFluxElement::default(), state_type: StateInputStreamType::Sequence, state_element, within_time }
    }
}

/// The input of a query.
#[derive(Debug)]
pub enum InputStream {
    Single(SingleInputStream),
    Join(Box<JoinInputStream>),
    State(Box<StateInputStream>),
}

/// The stream ids of a pattern, left to right, repeats included.
pub open spec fn state_ids(e: StateElement) -> Seq<Seq<char>>
    decreases e,
{
    match e {
        StateElement::Stream(s) => seq![s.stream_id@],
        StateElement::Next(a, b) => state_ids(*a) + state_ids(*b),
        StateElement::Logical(a, _, b) => state_ids(*a) + state_ids(*b),
        StateElement::Every(a) => state_ids(*a),
        StateElement::Count(a, _, _) => state_ids(*a),
    }
}

/// The stream ids of an input, left to right, repeats included.
pub open spec fn stream_ids_of(s: InputStream) -> Seq<Seq<char>> {
    match s {
        InputStream::Single(x) => seq![x.stream_id@],
        InputStream::Join(j) => seq![j.left_input_stream.stream_id@, j.right_input_stream.stream_id@],
        InputStream::State(st) => state_ids(st.state_element),
    }
}

/// `s` with later repeats removed.
pub open spec fn unique_ids(s: Seq<Seq<char>>) -> Seq<Seq<char>>
    decreases s.len(),
{
    if s.len() == 0 {
        Seq::empty()
    } else {
        let u = unique_ids(s.drop_last());
        if u.contains(s.last()) { u } else { u.push(s.last()) }
    }
}

pub proof fn lemma_unique_ids(s: Seq<Seq<char>>)
    ensures
        unique_ids(s).no_duplicates(),
        forall|x: Seq<char>| #[trigger] unique_ids(s).contains(x) <==> s.contains(x),
    decreases s.len(),
{
    if s.len() > 0 {
        let t = s.drop_last();
        lemma_unique_ids(t);
        crate::property_map::lemma_push_contains(t, s.last());
        assert(s == t.push(s.last()));
        crate::property_map::lemma_push_contains(unique_ids(t), s.last());
    }
}

/// Operations on the stream ids an input reads.
pub trait InputStreamTrait {
    /// All stream ids, repeats included.
    fn get_all_stream_ids(&self) -> Vec<String>;
    /// All stream ids, each once.
    fn get_unique_stream_ids(&self) -> Vec<String>;
}

fn collect_state_ids(e: &StateElement, out: &mut Vec<String>)
    ensures
        string_views(final(out)@) == string_views(old(out)@) + state_ids(*e),
    decreases e,
{
    match e {
        StateElement::Stream(s) => {
            let ghost before = out@;
            let id = s.stream_id.clone();
            out.push(id);
            proof {
                lemma_string_views_push(before, id);
                assert(string_views(out@) =~= string_views(before) + state_ids(*e));
            }
        },
        StateElement::Next(a, b) => {
            let ghost before = string_views(out@);
            collect_state_ids(a, out);
            collect_state_ids(b, out);
            proof {
                assert(string_views(out@) =~= before + state_ids(*e));
            }
        },
        StateElement::Logical(a, _, b) => {
            let ghost before = string_views(out@);
            collect_state_ids(a, out);
            collect_state_ids(b, out);
            proof {
                assert(string_views(out@) =~= before + state_ids(*e));
            }
        },
        StateElement::Every(a) => {
            collect_state_ids(a, out);
        },
        StateElement::Count(a, _, _) => {
            collect_state_ids(a, out);
        },
    }
}

impl InputStreamTrait for InputStream {
    fn get_all_stream_ids(&self) -> (r: Vec<String>)
        ensures
            string_views(r@) == stream_ids_of(*self),
    {
        let mut out: Vec<String> = Vec::new();
        proof {
            assert(string_views(out@) =~= Seq::<Seq<char>>::empty());
        }
        match self {
            InputStream::Single(s) => {
                let id = s.stream_id.clone();
                out.push(id);
                proof {
                    assert(string_views(out@) =~= stream_ids_of(*self));
                }
            },
            InputStream::Join(j) => {
                let a = j.left_input_stream.stream_id.clone();
                let b = j.right_input_stream.stream_id.clone();
                out.push(a);
                out.push(b);
                proof {
                    assert(string_views(out@) =~= stream_ids_of(*self));
                }
            },
            InputStream::State(st) => {
                collect_state_ids(&st.state_element, &mut out);
                proof {
                    assert(string_views(out@) =~= stream_ids_of(*self));
                }
            },
        }
        out
    }

    fn get_unique_stream_ids(&self) -> (r: Vec<String>)
        ensures
            string_views(r@) == unique_ids(stream_ids_of(*self)),
    {
        let all = self.get_all_stream_ids();
        let ghost av = string_views(all@);
        let mut out: Vec<String> = Vec::new();
        proof {
            assert(string_views(out@) =~= Seq::<Seq<char>>::empty());
            assert(av.subrange(0, 0) =~= Seq::<Seq<char>>::empty());
            lemma_unique_ids(Seq::<Seq<char>>::empty());
        }
        let mut i: usize = 0;
        while i < all.len()
            invariant
                i <= all@.len(),
                av == string_views(all@),
                string_views(out@) == unique_ids(av.subrange(0, i as int)),
            decreases all@.len() - i,
        {
            proof {
                lemma_unique_ids(av.subrange(0, i as int));
            }
            push_unique(&mut out, all[i].as_str());
            proof {
                let next = av.subrange(0, i + 1);
                assert(next.drop_last() =~= av.subrange(0, i as int));
                assert(next.last() == all@[i as int]@);
            }
            i = i + 1;
        }
        proof {
            assert(av.subrange(0, i as int) =~= av);
        }
        out
    }
}

impl InputStream {
    /// A single named stream.
    pub fn stream(stream_id: String) -> (r: Self)
        ensures
            r matches InputStream::Single(s) && s.stream_id@ == stream_id@ && s.stream_reference_id is None
                && !s.is_inner_stream,
    {
        InputStream::Single(SingleInputStream::new_basic_from_id(stream_id))
    }

    /// A single named stream with an alias.
    pub fn stream_with_ref(stream_reference_id: String, stream_id: String) -> (r: Self)
        ensures
            r matches InputStream::Single(s) && s.stream_id@ == stream_id@
                && (s.stream_reference_id matches Some(x) && x@ == stream_reference_id@),
    {
        InputStream::Single(SingleInputStream::new_basic_from_ref_id(stream_reference_id, stream_id))
    }

    /// A single inner stream (inside a partition).
    pub fn inner_stream(stream_id: String) -> (r: Self)
        ensures
            r matches InputStream::Single(s) && s.stream_id@ == stream_id@ && s.is_inner_stream,
    {
        InputStream::Single(SingleInputStream::new_basic_inner_from_id(stream_id))
    }

    /// The results of another query as a stream.
    pub fn stream_from_query(query: Query) -> (r: Self)
        ensures
            r matches InputStream::Single(s) && s.anonymous_query == Some(Box::new(query)),
    {
        InputStream::Single(SingleInputStream::new_anonymous_from_query(query))
    }

    /// A join of two streams; the trigger defaults to both sides.
    pub fn join_stream(
        left_stream: SingleInputStream,
        join_type: JoinType,
        right_stream: SingleInputStream,
        on_compare: Option<Expression>,
        trigger: Option<EventTrigger>,
        within: Option<Within>,
        per: Option<Expression>,
    ) -> (r: Self)
        ensures
            r matches InputStream::Join(j) && j.left_input_stream == left_stream && j.right_input_stream == right_stream
                && j.join_type == join_type && j.on_compare == on_compare
                && j.trigger == (match trigger { Some(t) => t, None => EventTrigger::All })
                && j.within == within && j.per == per,
    {
        let t = match trigger {
            Some(t) => t,
            None => EventTrigger::All,
        };
        InputStream::Join(Box::new(JoinInputStream {
            eventflux_element: EventFluxElement::default(),
            left_input_stream: left_stream,
            join_type,
            right_input_stream: right_stream,
            on_compare,
            trigger: t,
            within,
            per,
        }))
    }

    /// A pattern over streams.
    pub fn pattern_stream(pattern_element: StateElement, within_time: Option<Constant>) -> (r: Self)
        ensures
            r matches InputStream::State(s) && s.state_type == StateInputStreamType::Pattern
                && s.state_element == pattern_element && s.within_time == within_time,
    {
        InputStream::State(Box::new(StateInputStream::pattern_stream(pattern_element, within_time)))
    }

    /// A sequence over streams.
    pub fn sequence_stream(sequence_element: StateElement, within_time: Option<Constant>) -> (r: Self)
        ensures
            r matches InputStream::State(s) && s.state_type == StateInputStreamType::Sequence
                && s.state_element == sequence_element && s.within_time == within_time,
    {
        InputStream::State(Box::new(StateInputStream::sequence_stream(sequence_element, within_time)))
    }
}

} // verus!
