//! Extension factories: named components that create sources, sinks and
//! mappers from their configuration.

pub mod example_factories;

use vstd::prelude::*;
use crate::engine::exception::EventFluxError;
use crate::engine::stream::input::source::{Source, TimerSource};
use crate::engine::stream::input::mapper::SourceMapper;
use crate::engine::stream::output::sink::{Sink, LogSink};
use crate::engine::stream::output::mapper::{SinkLayout, SinkMapper};
use crate::engine::stream::mapper::csv_mapper::CsvSourceMapper;
use crate::engine::stream::mapper::json_mapper::JsonMapOutcome;
use crate::number::int_text;
use crate::number::{parse_u64, parse_unsigned_spec};
use crate::property_map::PropertyMap;
use crate::text::str_views;

verus! {

/// Creates aggregators for one aggregation function.
pub trait AttributeAggregatorFactory {
    fn name(&self) -> &'static str;
}

/// Creates sources for one extension name.
pub trait SourceFactory {
    /// Whether a configuration is one this factory builds from.
    spec fn accepts(&self, config: Map<Seq<char>, Seq<char>>) -> bool;

    /// Whether a source running with `settings` is one this factory builds
    /// from `config`.
    spec fn builds(&self, config: Map<Seq<char>, Seq<char>>, settings: Map<Seq<char>, Seq<char>>) -> bool;

    /// Whether `error` is how this factory refuses `config`.
    spec fn refuses_with(&self, config: Map<Seq<char>, Seq<char>>, error: EventFluxError) -> bool;

    /// The formats the sources can read.
    spec fn format_names(&self) -> Seq<Seq<char>>;

    fn name(&self) -> &'static str;

    /// The formats the sources can read.
    fn supported_formats(&self) -> (r: Vec<&'static str>)
        ensures
            str_views(r@) == self.format_names();

    /// The configuration keys that must be present.
    fn required_parameters(&self) -> Vec<&'static str>;

    /// The configuration keys that may be present.
    fn optional_parameters(&self) -> Vec<&'static str>;

    /// A source ready to use, or an error when the configuration is invalid.
    fn create_initialized(&self, config: &PropertyMap) -> (r: Result<Box<dyn Source>, EventFluxError>)
        ensures
            r is Ok <==> self.accepts(config@),
            r matches Ok(s) ==> self.builds(config@, s.settings()),
            r matches Err(e) ==> self.refuses_with(config@, e),
    ;

    /// A source built from an empty configuration, if that is valid.
    fn create(&self) -> (r: Option<Box<dyn Source>>)
        ensures
            r is Some <==> self.accepts(Map::empty()),
    {
        let empty = PropertyMap::new();
        proof {
            assert(empty@ == Map::<Seq<char>, Seq<char>>::empty());
        }
        match self.create_initialized(&empty) {
            Ok(s) => Some(s),
            Err(_) => None,
        }
    }
}

/// Creates sinks for one extension name.
pub trait SinkFactory {
    /// Whether a configuration is one this factory builds from.
    spec fn accepts(&self, config: Map<Seq<char>, Seq<char>>) -> bool;

    /// Whether a sink running with `settings` is one this factory builds
    /// from `config`.
    spec fn builds(&self, config: Map<Seq<char>, Seq<char>>, settings: Map<Seq<char>, Seq<char>>) -> bool;

    /// Whether `error` is how this factory refuses `config`.
    spec fn refuses_with(&self, config: Map<Seq<char>, Seq<char>>, error: EventFluxError) -> bool;

    /// The formats the sinks can write.
    spec fn format_names(&self) -> Seq<Seq<char>>;

    fn name(&self) -> &'static str;

    /// The formats the sinks can write.
    fn supported_formats(&self) -> (r: Vec<&'static str>)
        ensures
            str_views(r@) == self.format_names();

    fn required_parameters(&self) -> Vec<&'static str>;

    fn optional_parameters(&self) -> Vec<&'static str>;

    /// A sink ready to use, or an error when the configuration is invalid.
    fn create_initialized(&self, config: &PropertyMap) -> (r: Result<Box<dyn Sink>, EventFluxError>)
        ensures
            r is Ok <==> self.accepts(config@),
            r matches Ok(s) ==> self.builds(config@, s.settings()),
            r matches Err(e) ==> self.refuses_with(config@, e),
    ;

    /// A sink built from an empty configuration, if that is valid.
    fn create(&self) -> (r: Option<Box<dyn Sink>>)
        ensures
            r is Some <==> self.accepts(Map::empty()),
    {
        let empty = PropertyMap::new();
        proof {
            assert(empty@ == Map::<Seq<char>, Seq<char>>::empty());
        }
        match self.create_initialized(&empty) {
            Ok(s) => Some(s),
            Err(_) => None,
        }
    }
}

/// Creates stores for one store name.
pub trait StoreFactory {
    fn name(&self) -> &'static str;
}

/// Creates source mappers for one format.
pub trait SourceMapperFactory {
    /// Whether a configuration is one this factory builds from.
    spec fn accepts(&self, config: Map<Seq<char>, Seq<char>>) -> bool;

    /// Whether a mapper whose single-document outcome on each input is
    /// `outcome`, and whose CSV reading is `csv`, is one this factory builds
    /// from `config`.
    spec fn builds(&self, config: Map<Seq<char>, Seq<char>>, outcome: spec_fn(&[u8]) -> Option<JsonMapOutcome>, csv: Option<CsvSourceMapper>) -> bool;

    /// Whether `error` is how this factory refuses `config`.
    spec fn refuses_with(&self, config: Map<Seq<char>, Seq<char>>, error: EventFluxError) -> bool;

    fn name(&self) -> &'static str;

    fn required_parameters(&self) -> Vec<&'static str>;

    fn optional_parameters(&self) -> Vec<&'static str>;

    /// A mapper ready to use, or an error when the configuration is invalid.
    fn create_initialized(&self, config: &PropertyMap) -> (r: Result<Box<dyn SourceMapper>, EventFluxError>)
        ensures
            r is Ok <==> self.accepts(config@),
            r matches Ok(m) ==> self.builds(config@, |input: &[u8]| m.outcome(input), m.csv_reading()),
            r matches Err(e) ==> self.refuses_with(config@, e),
    ;

    fn create(&self) -> (r: Option<Box<dyn SourceMapper>>)
        ensures
            r is Some <==> self.accepts(Map::empty()),
    {
        let empty = PropertyMap::new();
        proof {
            assert(empty@ == Map::<Seq<char>, Seq<char>>::empty());
        }
        match self.create_initialized(&empty) {
            Ok(s) => Some(s),
            Err(_) => None,
        }
    }
}

/// Creates sink mappers for one format.
pub trait SinkMapperFactory {
    /// Whether a configuration is one this factory builds from.
    spec fn accepts(&self, config: Map<Seq<char>, Seq<char>>) -> bool;

    /// Whether a mapper with `layout` is one this factory builds from `config`.
    spec fn builds(&self, config: Map<Seq<char>, Seq<char>>, layout: SinkLayout) -> bool;

    /// Whether `error` is how this factory refuses `config`.
    spec fn refuses_with(&self, config: Map<Seq<char>, Seq<char>>, error: EventFluxError) -> bool;

    fn name(&self) -> &'static str;

    fn required_parameters(&self) -> Vec<&'static str>;

    fn optional_parameters(&self) -> Vec<&'static str>;

    /// A mapper ready to use, or an error when the configuration is invalid.
    fn create_initialized(&self, config: &PropertyMap) -> (r: Result<Box<dyn SinkMapper>, EventFluxError>)
        ensures
            r is Ok <==> self.accepts(config@),
            r matches Ok(m) ==> self.builds(config@, m.layout()),
            r matches Err(e) ==> self.refuses_with(config@, e),
    ;

    fn create(&self) -> (r: Option<Box<dyn SinkMapper>>)
        ensures
            r is Some <==> self.accepts(Map::empty()),
    {
        let empty = PropertyMap::new();
        proof {
            assert(empty@ == Map::<Seq<char>, Seq<char>>::empty());
        }
        match self.create_initialized(&empty) {
            Ok(s) => Some(s),
            Err(_) => None,
        }
    }
}

/// Creates tables for one table type.
pub trait TableFactory {
    fn name(&self) -> &'static str;
}

/// Creates script engines for one language.
pub trait ScriptFactory {
    fn name(&self) -> &'static str;
}

/// The interval of a timer source: `timer.interval` when present, else one second.
pub open spec fn timer_interval_spec(config: Map<Seq<char>, Seq<char>>) -> Option<int> {
    if config.contains_key("timer.interval"@) {
        parse_unsigned_spec(config["timer.interval"@], u64::MAX as int)
    } else {
        Some(1000)
    }
}

/// The error for a timer interval that is not a number.
pub open spec fn timer_refusal(e: EventFluxError) -> bool {
    e matches EventFluxError::InvalidParameter { message: m, parameter: Some(p), .. }
        && m@ == "timer.interval must be a valid integer"@ && p@ == "timer.interval"@
}

/// Creates timer sources.
#[derive(Debug, Clone)]
pub struct TimerSourceFactory;

impl TimerSourceFactory {
    /// The interval of the timer that the configuration asks for.
    pub fn parse_interval(config: &PropertyMap) -> (r: Result<u64, EventFluxError>)
        ensures
            r matches Ok(v) ==> timer_interval_spec(config@) == Some(v as int),
            r is Err ==> timer_interval_spec(config@) is None,
            r matches Err(e) ==> timer_refusal(e),
    {
        match config.get("timer.interval") {
            Some(s) => match parse_u64(s.as_str()) {
                Some(v) => Ok(v),
                None => Err(EventFluxError::invalid_parameter_with_details(
                    "timer.interval must be a valid integer",
                    "timer.interval",
                    "positive integer (milliseconds)",
                )),
            },
            None => Ok(1000),
        }
    }

    /// A boxed copy of the factory.
    pub fn clone_box(&self) -> Box<dyn SourceFactory> {
        Box::new(TimerSourceFactory)
    }
}

impl SourceFactory for TimerSourceFactory {
    open spec fn accepts(&self, config: Map<Seq<char>, Seq<char>>) -> bool {
        timer_interval_spec(config) is Some
    }

    /// A timer with the interval the configuration asks for.
    open spec fn builds(&self, config: Map<Seq<char>, Seq<char>>, settings: Map<Seq<char>, Seq<char>>) -> bool {
        settings == map!["timer.interval"@ => int_text(timer_interval_spec(config)->0)]
    }

    /// An interval that is not a number.
    open spec fn refuses_with(&self, config: Map<Seq<char>, Seq<char>>, error: EventFluxError) -> bool {
        timer_refusal(error)
    }

    open spec fn format_names(&self) -> Seq<Seq<char>> {
        seq!["json"@, "text"@, "bytes"@]
    }

    fn name(&self) -> (r: &'static str)
        ensures
            r@ == "timer"@,
    {
        "timer"
    }

    fn supported_formats(&self) -> (r: Vec<&'static str>) {
        let r = vec!["json", "text", "bytes"];
        proof {
            assert(str_views(r@) =~= self.format_names());
        }
        r
    }

    fn required_parameters(&self) -> (r: Vec<&'static str>)
        ensures
            r@.len() == 0,
    {
        Vec::new()
    }

    fn optional_parameters(&self) -> (r: Vec<&'static str>)
        ensures
            str_views(r@) == seq!["timer.interval"@],
    {
        let r = vec!["timer.interval"];
        proof {
            assert(str_views(r@) =~= seq!["timer.interval"@]);
        }
        r
    }

    fn create_initialized(&self, config: &PropertyMap) -> (r: Result<Box<dyn Source>, EventFluxError>)
        ensures
            r is Ok <==> timer_interval_spec(config@) is Some,
    {
        match Self::parse_interval(config) {
            Ok(interval_ms) => {
                let s = TimerSource::new(interval_ms);
                let ghost g = s;
                let r: Result<Box<dyn Source>, EventFluxError> = Ok(Box::new(s));
                proof {
                    assert(r->Ok_0.settings() == g.settings());
                    assert(r->Ok_0.settings() =~= map!["timer.interval"@ => int_text(interval_ms as int)]);
                    assert(self.builds(config@, r->Ok_0.settings()));
                }
                r
            },
            Err(e) => {
                proof {
                    assert(timer_refusal(e));
                    assert(self.refuses_with(config@, e));
                }
                Err(e)
            },
        }
    }
}

/// Creates log sinks.
#[derive(Debug, Clone)]
pub struct LogSinkFactory;

impl LogSinkFactory {
    /// A boxed copy of the factory.
    pub fn clone_box(&self) -> Box<dyn SinkFactory> {
        Box::new(LogSinkFactory)
    }
}

impl SinkFactory for LogSinkFactory {
    open spec fn accepts(&self, config: Map<Seq<char>, Seq<char>>) -> bool {
        true
    }

    /// Every configuration is accepted.
    open spec fn refuses_with(&self, config: Map<Seq<char>, Seq<char>>, error: EventFluxError) -> bool {
        false
    }

    /// A log sink with no prefix.
    open spec fn builds(&self, config: Map<Seq<char>, Seq<char>>, settings: Map<Seq<char>, Seq<char>>) -> bool {
        settings == map!["log.prefix"@ => Seq::<char>::empty()]
    }

    open spec fn format_names(&self) -> Seq<Seq<char>> {
        seq!["json"@, "text"@, "csv"@, "bytes"@]
    }

    fn name(&self) -> (r: &'static str)
        ensures
            r@ == "log"@,
    {
        "log"
    }

    fn supported_formats(&self) -> (r: Vec<&'static str>) {
        let r = vec!["json", "text", "csv", "bytes"];
        proof {
            assert(str_views(r@) =~= self.format_names());
        }
        r
    }

    fn required_parameters(&self) -> (r: Vec<&'static str>)
        ensures
            r@.len() == 0,
    {
        Vec::new()
    }

    fn optional_parameters(&self) -> (r: Vec<&'static str>)
        ensures
            str_views(r@) == seq!["log.prefix"@, "log.level"@],
    {
        let r = vec!["log.prefix", "log.level"];
        proof {
            assert(str_views(r@) =~= seq!["log.prefix"@, "log.level"@]);
        }
        r
    }

    fn create_initialized(&self, config: &PropertyMap) -> (r: Result<Box<dyn Sink>, EventFluxError>)
        ensures
            r is Ok,
    {
        let s = LogSink::new();
        let ghost g = s;
        let r: Result<Box<dyn Sink>, EventFluxError> = Ok(Box::new(s));
        proof {
            assert(r->Ok_0.settings() == g.settings());
            assert(g.prefix@ =~= Seq::<char>::empty());
            assert(r->Ok_0.settings() =~= map!["log.prefix"@ => Seq::<char>::empty()]);
            assert(self.builds(config@, r->Ok_0.settings()));
        }
        r
    }
}

} // verus!
