//! Start/stop lifecycle of the sources and sinks attached to streams.

use vstd::prelude::*;
use crate::engine::exception::EventFluxError;
use crate::engine::stream::input::input_handler::InputHandler;
use crate::engine::stream::input::mapper::SourceMapper;
use crate::engine::stream::input::source::Source;
use crate::engine::stream::output::mapper::SinkMapper;
use crate::engine::stream::output::sink::Sink;
use crate::text::concat;
use crate::number::{int_text, usize_to_string};
use crate::property_map::{string_views, lemma_string_views_push};

verus! {

pub open spec fn already_running_message(stream_id: Seq<char>) -> Seq<char> {
    "Source '"@ + stream_id + "' is already running"@
}

/// A source together with its mapper and the input handler it feeds.
pub struct SourceStreamHandler {
    source: Box<dyn Source>,
    mapper: Option<Box<dyn SourceMapper>>,
    input_handler: InputHandler,
    stream_id: String,
    is_running: bool,
}

impl SourceStreamHandler {
    pub closed spec fn running(&self) -> bool {
        self.is_running
    }

    pub closed spec fn id(&self) -> Seq<char> {
        self.stream_id@
    }

    pub closed spec fn has_mapper(&self) -> bool {
        self.mapper is Some
    }

    /// Whether the source this handler drives is delivering events.
    pub closed spec fn source_started(&self) -> bool {
        self.source.started()
    }

    /// A stopped handler for `stream_id`.
    pub fn new(
        source: Box<dyn Source>,
        mapper: Option<Box<dyn SourceMapper>>,
        input_handler: InputHandler,
        stream_id: String,
    ) -> (r: Self)
        ensures
            !r.running(),
            r.id() == stream_id@,
            r.has_mapper() == (mapper is Some),
    {
        SourceStreamHandler { source, mapper, input_handler, stream_id, is_running: false }
    }

    /// Starts the source; refused while it is already running.
    pub fn start(&mut self) -> (r: Result<(), EventFluxError>)
        ensures
            final(self).running(),
            final(self).id() == old(self).id(),
            final(self).has_mapper() == old(self).has_mapper(),
            r is Ok <==> !old(self).running(),
            r is Ok ==> final(self).source_started(),
            r is Err ==> final(self).source_started() == old(self).source_started(),
            r matches Err(e) ==> (e matches EventFluxError::AppRuntime { message: m }
                && m@ == already_running_message(old(self).id())),
    {
        if self.is_running {
            let m = concat("Source '", self.stream_id.as_str());
            let m = concat(m.as_str(), "' is already running");
            return Err(EventFluxError::app_runtime(m.as_str()));
        }
        self.is_running = true;
        self.source.start(&mut self.input_handler);
        Ok(())
    }

    /// Stops the source if it is running.
    pub fn stop(&mut self)
        ensures
            !final(self).running(),
            final(self).id() == old(self).id(),
            final(self).has_mapper() == old(self).has_mapper(),
            old(self).running() ==> !final(self).source_started(),
            !old(self).running() ==> final(self).source_started() == old(self).source_started(),
    {
        if self.is_running {
            self.is_running = false;
            self.source.stop();
        }
    }

    pub fn is_running(&self) -> (r: bool)
        ensures
            r == self.running(),
    {
        self.is_running
    }

    pub fn stream_id(&self) -> (r: &str)
        ensures
            r@ == self.id(),
    {
        self.stream_id.as_str()
    }

    pub fn source(&self) -> (r: &Box<dyn Source>) {
        &self.source
    }

    pub fn mapper(&self) -> (r: Option<&Box<dyn SourceMapper>>)
        ensures
            r is Some == self.has_mapper(),
    {
        match &self.mapper {
            Some(m) => Some(m),
            None => None,
        }
    }

    pub fn input_handler(&self) -> (r: &InputHandler) {
        &self.input_handler
    }
}

/// A sink together with its mapper.
pub struct SinkStreamHandler {
    sink: Box<dyn Sink>,
    mapper: Option<Box<dyn SinkMapper>>,
    stream_id: String,
    is_running: bool,
}

impl SinkStreamHandler {
    pub closed spec fn running(&self) -> bool {
        self.is_running
    }

    pub closed spec fn id(&self) -> Seq<char> {
        self.stream_id@
    }

    pub closed spec fn has_mapper(&self) -> bool {
        self.mapper is Some
    }

    /// Whether the sink this handler drives is open.
    pub closed spec fn sink_started(&self) -> bool {
        self.sink.started()
    }

    /// A stopped handler for `stream_id`.
    pub fn new(sink: Box<dyn Sink>, mapper: Option<Box<dyn SinkMapper>>, stream_id: String) -> (r: Self)
        ensures
            !r.running(),
            r.id() == stream_id@,
            r.has_mapper() == (mapper is Some),
    {
        SinkStreamHandler { sink, mapper, stream_id, is_running: false }
    }

    /// Starts the sink unless it is already running.
    pub fn start(&mut self)
        ensures
            final(self).running(),
            final(self).id() == old(self).id(),
            final(self).has_mapper() == old(self).has_mapper(),
            !old(self).running() ==> final(self).sink_started(),
            old(self).running() ==> final(self).sink_started() == old(self).sink_started(),
    {
        if !self.is_running {
            self.is_running = true;
            self.sink.start();
        }
    }

    /// Stops the sink if it is running.
    pub fn stop(&mut self)
        ensures
            !final(self).running(),
            final(self).id() == old(self).id(),
            final(self).has_mapper() == old(self).has_mapper(),
            old(self).running() ==> !final(self).sink_started(),
            !old(self).running() ==> final(self).sink_started() == old(self).sink_started(),
    {
        if self.is_running {
            self.is_running = false;
            self.sink.stop();
        }
    }

    pub fn is_running(&self) -> (r: bool)
        ensures
            r == self.running(),
    {
        self.is_running
    }

    pub fn stream_id(&self) -> (r: &str)
        ensures
            r@ == self.id(),
    {
        self.stream_id.as_str()
    }

    pub fn sink(&self) -> (r: &Box<dyn Sink>) {
        &self.sink
    }

    pub fn mapper(&self) -> (r: Option<&Box<dyn SinkMapper>>)
        ensures
            r is Some == self.has_mapper(),
    {
        match &self.mapper {
            Some(m) => Some(m),
            None => None,
        }
    }
}

/// The message recorded for a source that could not be started because it
/// was already running.
pub open spec fn start_failure_message(id: Seq<char>) -> Seq<char> {
    "Failed to start source '"@ + id + "': "@ + "App runtime error: "@ + already_running_message(id)
}

/// The messages for the handlers, among the first `n`, that were already running.
pub open spec fn start_failures(hs: Seq<SourceStreamHandler>, n: int) -> Seq<Seq<char>>
    decreases n,
{
    if n <= 0 || n > hs.len() {
        Seq::empty()
    } else if hs[n - 1].running() {
        start_failures(hs, n - 1).push(start_failure_message(hs[n - 1].id()))
    } else {
        start_failures(hs, n - 1)
    }
}

/// `parts` with `sep` between each two.
pub open spec fn join_with(parts: Seq<Seq<char>>, sep: Seq<char>) -> Seq<char>
    decreases parts.len(),
{
    if parts.len() == 0 {
        Seq::empty()
    } else if parts.len() == 1 {
        parts[0]
    } else {
        join_with(parts.drop_last(), sep) + sep + parts.last()
    }
}

/// The error reporting the sources that could not be started.
pub open spec fn start_summary(failures: Seq<Seq<char>>) -> Seq<char> {
    "Failed to start "@ + int_text(failures.len() as int) + " source(s): "@ + join_with(failures, "; "@)
}

/// `parts` joined with `sep`.
fn join_strings(parts: &Vec<String>, sep: &str) -> (r: String)
    ensures
        r@ == join_with(string_views(parts@), sep@),
{
    let ghost pv = string_views(parts@);
    let mut out = String::new();
    let mut i: usize = 0;
    proof {
        assert(pv.take(0) =~= Seq::<Seq<char>>::empty());
    }
    while i < parts.len()
        invariant
            i <= parts@.len(),
            pv == string_views(parts@),
            out@ == join_with(pv.take(i as int), sep@),
        decreases parts@.len() - i,
    {
        proof {
            assert(pv.take(i + 1).drop_last() =~= pv.take(i as int));
            assert(pv.take(i + 1).last() == parts@[i as int]@);
        }
        if i > 0 {
            out = concat(out.as_str(), sep);
        }
        out = concat(out.as_str(), parts[i].as_str());
        i = i + 1;
    }
    proof {
        assert(pv.take(parts@.len() as int) =~= pv);
    }
    out
}

/// Starts every handler, in order; each one already running is recorded as
/// a failure, and any failure makes the whole start an error listing them all.
pub fn start_all_sources(handlers: &mut Vec<SourceStreamHandler>) -> (r: Result<(), String>)
    ensures
        final(handlers)@.len() == old(handlers)@.len(),
        forall|i: int| 0 <= i < final(handlers)@.len() ==> {
            &&& (#[trigger] final(handlers)@[i]).running()
            &&& final(handlers)@[i].id() == old(handlers)@[i].id()
            &&& final(handlers)@[i].has_mapper() == old(handlers)@[i].has_mapper()
            &&& !old(handlers)@[i].running() ==> final(handlers)@[i].source_started()
        },
        r is Ok <==> start_failures(old(handlers)@, old(handlers)@.len() as int).len() == 0,
        r matches Err(m) ==> m@ == start_summary(start_failures(old(handlers)@, old(handlers)@.len() as int)),
{
    let ghost hs0 = handlers@;
    let mut errors: Vec<String> = Vec::new();
    let mut i: usize = 0;
    proof {
        assert(string_views(errors@) =~= Seq::<Seq<char>>::empty());
    }
    while i < handlers.len()
        invariant
            i <= handlers@.len(),
            handlers@.len() == hs0.len(),
            string_views(errors@) == start_failures(hs0, i as int),
            forall|j: int| i <= j < handlers@.len() ==> #[trigger] handlers@[j] == hs0[j],
            forall|j: int| 0 <= j < i ==> {
                &&& (#[trigger] handlers@[j]).running()
                &&& handlers@[j].id() == hs0[j].id()
                &&& handlers@[j].has_mapper() == hs0[j].has_mapper()
                &&& !hs0[j].running() ==> handlers@[j].source_started()
            },
        decreases hs0.len() - i,
    {
        let ghost before = errors@;
        let ghost h0 = hs0[i as int];
        proof {
            assert(handlers@[i as int] == h0);
        }
        let res = handlers[i].start();
        match res {
            Err(e) => {
                let m = concat("Failed to start source '", handlers[i].stream_id());
                let m = concat(m.as_str(), "': ");
                let t = e.to_string();
                let m = concat(m.as_str(), t.as_str());
                proof {
                    assert(h0.running());
                    assert(t@ == "App runtime error: "@ + already_running_message(h0.id()));
                    assert(m@ =~= start_failure_message(h0.id()));
                }
                errors.push(m);
                proof {
                    lemma_string_views_push(before, m);
                    assert(start_failures(hs0, i + 1) == start_failures(hs0, i as int).push(start_failure_message(h0.id())));
                }
            },
            Ok(()) => {
                proof {
                    assert(!h0.running());
                    assert(start_failures(hs0, i + 1) == start_failures(hs0, i as int));
                }
            },
        }
        i = i + 1;
    }
    if errors.len() == 0 {
        Ok(())
    } else {
        let n = usize_to_string(errors.len());
        let m = concat("Failed to start ", n.as_str());
        let m = concat(m.as_str(), " source(s): ");
        let joined = join_strings(&errors, "; ");
        Err(concat(m.as_str(), joined.as_str()))
    }
}

/// Stops every source handler.
pub fn stop_all_sources(handlers: &mut Vec<SourceStreamHandler>)
    ensures
        final(handlers)@.len() == old(handlers)@.len(),
        forall|i: int| 0 <= i < final(handlers)@.len() ==> {
            &&& !(#[trigger] final(handlers)@[i]).running()
            &&& final(handlers)@[i].id() == old(handlers)@[i].id()
            &&& old(handlers)@[i].running() ==> !final(handlers)@[i].source_started()
        },
{
    let ghost hs0 = handlers@;
    let mut i: usize = 0;
    while i < handlers.len()
        invariant
            i <= handlers@.len(),
            handlers@.len() == hs0.len(),
            forall|j: int| i <= j < handlers@.len() ==> #[trigger] handlers@[j] == hs0[j],
            forall|j: int| 0 <= j < i ==> {
                &&& !(#[trigger] handlers@[j]).running()
                &&& handlers@[j].id() == hs0[j].id()
                &&& hs0[j].running() ==> !handlers@[j].source_started()
            },
        decreases hs0.len() - i,
    {
        proof {
            assert(handlers@[i as int] == hs0[i as int]);
        }
        handlers[i].stop();
        i = i + 1;
    }
}

/// Stops every sink handler.
pub fn stop_all_sinks(handlers: &mut Vec<SinkStreamHandler>)
    ensures
        final(handlers)@.len() == old(handlers)@.len(),
        forall|i: int| 0 <= i < final(handlers)@.len() ==> {
            &&& !(#[trigger] final(handlers)@[i]).running()
            &&& final(handlers)@[i].id() == old(handlers)@[i].id()
            &&& old(handlers)@[i].running() ==> !final(handlers)@[i].sink_started()
        },
{
    let ghost hs0 = handlers@;
    let mut i: usize = 0;
    while i < handlers.len()
        invariant
            i <= handlers@.len(),
            handlers@.len() == hs0.len(),
            forall|j: int| i <= j < handlers@.len() ==> #[trigger] handlers@[j] == hs0[j],
            forall|j: int| 0 <= j < i ==> {
                &&& !(#[trigger] handlers@[j]).running()
                &&& handlers@[j].id() == hs0[j].id()
                &&& hs0[j].running() ==> !handlers@[j].sink_started()
            },
        decreases hs0.len() - i,
    {
        proof {
            assert(handlers@[i as int] == hs0[i as int]);
        }
        handlers[i].stop();
        i = i + 1;
    }
}

/// The texts of errors, in order.
pub open spec fn error_texts(errors: Seq<EventFluxError>) -> Seq<Seq<char>> {
    errors.map_values(|e: EventFluxError| e.text())
}

/// `e` is a runtime error with message `m`.
pub open spec fn runtime_error_with(e: EventFluxError, m: Seq<char>) -> bool {
    e matches EventFluxError::AppRuntime { message } && message@ == m
}

/// The errors met while starting an application, in the order they arise:
/// attaching the configured sources, the configured sinks (one failure,
/// reported as a runtime error), the configured tables, what SQL `WITH`
/// clauses define, and starting the sources (one failure, reported as a
/// runtime error).
pub fn startup_errors(
    source_errors: Vec<EventFluxError>,
    sink_error: Option<String>,
    table_errors: Vec<EventFluxError>,
    sql_errors: Vec<EventFluxError>,
    start_error: Option<String>,
) -> (r: Vec<EventFluxError>)
    ensures
        ({
            let a = source_errors@.len() as int;
            let b = a + (if sink_error is Some { 1int } else { 0int });
            let c = b + table_errors@.len();
            let d = c + sql_errors@.len();
            &&& r@.len() == d + (if start_error is Some { 1int } else { 0int })
            &&& r@.subrange(0, a) == source_errors@
            &&& sink_error matches Some(m) ==> runtime_error_with(r@[a], m@)
            &&& r@.subrange(b, c) == table_errors@
            &&& r@.subrange(c, d) == sql_errors@
            &&& start_error matches Some(m) ==> runtime_error_with(r@[d], m@)
        }),
{
    let mut all = source_errors;
    let ghost a = all@.len() as int;
    let ghost after_sources = all@;
    if let Some(m) = &sink_error {
        all.push(EventFluxError::app_runtime(m.as_str()));
    }
    let ghost b = all@.len() as int;
    let ghost after_sink = all@;
    let mut tables = table_errors;
    let ghost tv = tables@;
    all.append(&mut tables);
    let ghost c = all@.len() as int;
    let ghost after_tables = all@;
    let mut sql = sql_errors;
    let ghost qv = sql@;
    all.append(&mut sql);
    let ghost d = all@.len() as int;
    let ghost after_sql = all@;
    if let Some(m) = &start_error {
        all.push(EventFluxError::app_runtime(m.as_str()));
    }
    proof {
        assert(all@.subrange(0, a) =~= after_sources);
        assert(all@.subrange(b, c) =~= tv);
        assert(all@.subrange(c, d) =~= qv);
        assert(after_sql.subrange(0, a) =~= after_sources);
    }
    all
}

/// The outcome of starting an application, from the errors met while
/// attaching and starting its parts: success when there were none, else one
/// runtime error that counts and lists them all.
pub fn startup_result(errors: &Vec<EventFluxError>) -> (r: Result<(), EventFluxError>)
    ensures
        r is Ok <==> errors@.len() == 0,
        r matches Err(e) ==> (e matches EventFluxError::AppRuntime { message }
            && message@ == "Runtime startup encountered "@ + int_text(errors@.len() as int) + " error(s): "@
                + join_with(error_texts(errors@), "; "@)),
{
    if errors.len() == 0 {
        return Ok(());
    }
    let mut texts: Vec<String> = Vec::new();
    let mut i: usize = 0;
    while i < errors.len()
        invariant
            i <= errors@.len(),
            string_views(texts@) == error_texts(errors@).take(i as int),
        decreases errors@.len() - i,
    {
        let ghost before = texts@;
        let t = errors[i].to_string();
        texts.push(t);
        proof {
            lemma_string_views_push(before, t);
            assert(error_texts(errors@).take(i + 1) =~= error_texts(errors@).take(i as int).push(errors@[i as int].text()));
        }
        i = i + 1;
    }
    proof {
        assert(error_texts(errors@).take(errors@.len() as int) =~= error_texts(errors@));
    }
    let n = usize_to_string(errors.len());
    let m = concat("Runtime startup encountered ", n.as_str());
    let m = concat(m.as_str(), " error(s): ");
    let joined = join_strings(&texts, "; ");
    let m = concat(m.as_str(), joined.as_str());
    Err(EventFluxError::app_runtime(m.as_str()))
}

} // verus!
