//! Example factories whose configuration is parsed into typed settings before
//! anything is created: a Kafka source, an HTTP sink, a JSON source mapper and
//! a CSV sink mapper.

use vstd::prelude::*;
use crate::engine::event::Event;
use crate::engine::exception::EventFluxError;
use crate::engine::extension::{SinkFactory, SinkMapperFactory, SourceFactory, SourceMapperFactory};
use crate::engine::stream::input::input_handler::InputHandler;
use crate::engine::stream::input::mapper::SourceMapper;
use crate::engine::stream::mapper::csv_mapper::CsvSourceMapper;
use crate::engine::stream::mapper::json_mapper::{JsonMapOutcome, events_match};
use crate::engine::stream::input::source::Source;
use crate::engine::stream::output::mapper::{SinkLayout, SinkMapper};
use crate::engine::stream::handler::join_with;
use crate::engine::stream::output::sink::{Sink, saturating_sum};
use crate::number::{parse_u64, parse_unsigned_spec, parse_bool, parse_bool_spec};
use crate::property_map::{PropertyMap, string_views, lemma_string_views_push};
use crate::text::{chars_of, split_char, split_spec, trim, trim_spec, str_views, str_eq, owned, concat, to_uppercase, uppercase};

verus! {

/// The non-empty pieces of `s`, in order.
pub open spec fn non_empty(s: Seq<Seq<char>>) -> Seq<Seq<char>>
    decreases s.len(),
{
    if s.len() == 0 {
        Seq::empty()
    } else if s.last().len() > 0 {
        non_empty(s.drop_last()).push(s.last())
    } else {
        non_empty(s.drop_last())
    }
}

/// Each piece of `s` trimmed.
pub open spec fn trim_all(s: Seq<Seq<char>>) -> Seq<Seq<char>> {
    s.map_values(|p: Seq<char>| trim_spec(p))
}

/// The broker addresses of a comma-separated list: trimmed, empty ones dropped.
pub open spec fn broker_list(s: Seq<char>) -> Seq<Seq<char>> {
    non_empty(trim_all(split_spec(s, ',')))
}

/// An optional unsigned setting: its value when present and valid, the default
/// when absent, `None` when present but not a number.
pub open spec fn optional_u64(config: Map<Seq<char>, Seq<char>>, key: Seq<char>, default: int) -> Option<int> {
    if config.contains_key(key) {
        parse_unsigned_spec(config[key], u64::MAX as int)
    } else {
        Some(default)
    }
}

fn parse_optional_u64(config: &PropertyMap, key: &str, default: u64) -> (r: Option<u64>)
    ensures
        r matches Some(v) ==> optional_u64(config@, key@, default as int) == Some(v as int),
        r is None ==> optional_u64(config@, key@, default as int) is None,
{
    match config.get(key) {
        Some(s) => parse_u64(s.as_str()),
        None => Some(default),
    }
}

/// Whether a Kafka source can be built from the configuration.
pub open spec fn kafka_config_valid(m: Map<Seq<char>, Seq<char>>) -> bool {
    &&& m.contains_key("kafka.bootstrap.servers"@)
    &&& m.contains_key("kafka.topic"@)
    &&& broker_list(m["kafka.bootstrap.servers"@]).len() > 0
    &&& optional_u64(m, "kafka.timeout"@, 30000) is Some
}

/// Settings of a Kafka source.
#[derive(Debug, Clone)]
pub struct KafkaSourceConfig {
    pub bootstrap_servers: Vec<String>,
    pub topic: String,
    pub consumer_group: String,
    pub timeout_ms: u64,
}

/// Splits a broker list at commas, trims each address and drops empty ones.
pub fn parse_broker_list(s: &str) -> (r: Vec<String>)
    ensures
        string_views(r@) == broker_list(s@),
{
    let parts = split_char(s, ',');
    let ghost pv = string_views(parts@);
    let mut out: Vec<String> = Vec::new();
    proof {
        assert(string_views(out@) =~= Seq::<Seq<char>>::empty());
        assert(trim_all(pv.subrange(0, 0)) =~= Seq::<Seq<char>>::empty());
    }
    let mut i: usize = 0;
    while i < parts.len()
        invariant
            i <= parts@.len(),
            pv == string_views(parts@),
            string_views(out@) == non_empty(trim_all(pv.subrange(0, i as int))),
        decreases parts@.len() - i,
    {
        let t = trim(parts[i].as_str());
        let t_len = chars_of(t.as_str()).len();
        proof {
            let next = trim_all(pv.subrange(0, i + 1));
            assert(next.drop_last() =~= trim_all(pv.subrange(0, i as int)));
            assert(next.last() == trim_spec(parts@[i as int]@));
        }
        if t_len > 0 {
            let ghost before = out@;
            proof {
                assert(t@.len() > 0);
            }
            out.push(t);
            proof {
                lemma_string_views_push(before, t);
            }
        } else {
            proof {
                assert(t@.len() == 0);
            }
        }
        i = i + 1;
    }
    proof {
        assert(pv.subrange(0, i as int) =~= pv);
    }
    out
}

impl KafkaSourceConfig {
    /// Reads the settings: brokers and topic are required, the timeout must be
    /// a number, the consumer group defaults to `eventflux-<topic>`.
    pub fn parse(raw_config: &PropertyMap) -> (r: Result<Self, EventFluxError>)
        ensures
            r is Ok <==> kafka_config_valid(raw_config@),
            !raw_config@.contains_key("kafka.bootstrap.servers"@) ==> (r matches Err(EventFluxError::InvalidParameter { message: m, parameter: Some(p), .. })
                && p@ == "kafka.bootstrap.servers"@ && m@ == "Missing required parameter: "@ + "kafka.bootstrap.servers"@),
            raw_config@.contains_key("kafka.bootstrap.servers"@) && !raw_config@.contains_key("kafka.topic"@)
                ==> (r matches Err(EventFluxError::InvalidParameter { message: m, parameter: Some(p), .. }) && p@ == "kafka.topic"@
                    && m@ == "Missing required parameter: "@ + "kafka.topic"@),
            raw_config@.contains_key("kafka.bootstrap.servers"@) && raw_config@.contains_key("kafka.topic"@) ==> ({
                let brokers = broker_list(raw_config@["kafka.bootstrap.servers"@]);
                let topic = raw_config@["kafka.topic"@];
                &&& brokers.len() == 0 ==> (r matches Err(EventFluxError::Configuration { message: m, config_key: Some(k) })
                        && k@ == "kafka.bootstrap.servers"@ && m@ == "kafka.bootstrap.servers cannot be empty"@)
                &&& brokers.len() > 0 && optional_u64(raw_config@, "kafka.timeout"@, 30000) is None
                        ==> (r matches Err(EventFluxError::InvalidParameter { message: m, parameter: Some(p), .. }) && p@ == "kafka.timeout"@
                            && m@ == "kafka.timeout must be a valid integer"@)
                &&& brokers.len() > 0 && optional_u64(raw_config@, "kafka.timeout"@, 30000) is Some ==> (r matches Ok(c)
                        && string_views(c.bootstrap_servers@) == brokers
                        && c.topic@ == topic
                        && Some(c.timeout_ms as int) == optional_u64(raw_config@, "kafka.timeout"@, 30000)
                        && c.consumer_group@ == (if raw_config@.contains_key("kafka.consumer.group"@) {
                            raw_config@["kafka.consumer.group"@]
                        } else {
                            "eventflux-"@ + topic
                        }))
            }),
    {
        let brokers_str = match raw_config.get("kafka.bootstrap.servers") {
            Some(b) => b,
            None => {
                return Err(EventFluxError::missing_parameter("kafka.bootstrap.servers"));
            },
        };
        let topic = match raw_config.get("kafka.topic") {
            Some(t) => t,
            None => {
                return Err(EventFluxError::missing_parameter("kafka.topic"));
            },
        };
        let bootstrap_servers = parse_broker_list(brokers_str.as_str());
        if bootstrap_servers.len() == 0 {
            return Err(EventFluxError::configuration_with_key(
                "kafka.bootstrap.servers cannot be empty",
                "kafka.bootstrap.servers",
            ));
        }
        let timeout_ms = match parse_optional_u64(raw_config, "kafka.timeout", 30000) {
            Some(v) => v,
            None => {
                return Err(EventFluxError::invalid_parameter_with_details(
                    "kafka.timeout must be a valid integer",
                    "kafka.timeout",
                    "positive integer (milliseconds)",
                ));
            },
        };
        let consumer_group = match raw_config.get("kafka.consumer.group") {
            Some(g) => g.clone(),
            None => concat("eventflux-", topic.as_str()),
        };
        Ok(KafkaSourceConfig { bootstrap_servers, topic: topic.clone(), consumer_group, timeout_ms })
    }
}

/// A Kafka source (the connection itself is made by the application).
#[derive(Debug)]
pub struct KafkaSource {
    topic: String,
    bootstrap_servers: Vec<String>,
    running: bool,
}

impl KafkaSource {
    /// The topic and the broker addresses.
    pub closed spec fn subscription(&self) -> (Seq<char>, Seq<Seq<char>>) {
        (self.topic@, string_views(self.bootstrap_servers@))
    }
}

impl Source for KafkaSource {
    /// Whether the source is consuming.
    closed spec fn started(&self) -> bool {
        self.running
    }

    /// The topic, and the broker addresses joined with `,`.
    open spec fn settings(&self) -> Map<Seq<char>, Seq<char>> {
        map![
            "kafka.topic"@ => self.subscription().0,
            "kafka.bootstrap.servers"@ => join_with(self.subscription().1, ","@)
        ]
    }

    /// Marks the source consuming.
    fn start(&mut self, handler: &mut InputHandler)
        ensures
            final(self).subscription() == old(self).subscription(),
    {
        self.running = true;
    }

    /// Marks the source stopped.
    fn stop(&mut self)
        ensures
            final(self).subscription() == old(self).subscription(),
    {
        self.running = false;
    }
}

/// Creates Kafka sources.
#[derive(Debug, Clone)]
pub struct KafkaSourceFactory;

impl KafkaSourceFactory {
    pub fn clone_box(&self) -> Box<dyn SourceFactory> {
        Box::new(KafkaSourceFactory)
    }
}

/// How a Kafka configuration is refused: a missing broker list or topic, an
/// empty broker list, a timeout that is not a number, checked in that order.
pub open spec fn kafka_refusal(config: Map<Seq<char>, Seq<char>>, e: EventFluxError) -> bool {
    if !config.contains_key("kafka.bootstrap.servers"@) {
        e matches EventFluxError::InvalidParameter { message: m, parameter: Some(p), .. }
            && p@ == "kafka.bootstrap.servers"@ && m@ == "Missing required parameter: "@ + "kafka.bootstrap.servers"@
    } else if !config.contains_key("kafka.topic"@) {
        e matches EventFluxError::InvalidParameter { message: m, parameter: Some(p), .. }
            && p@ == "kafka.topic"@ && m@ == "Missing required parameter: "@ + "kafka.topic"@
    } else if broker_list(config["kafka.bootstrap.servers"@]).len() == 0 {
        e matches EventFluxError::Configuration { message: m, config_key: Some(k) }
            && k@ == "kafka.bootstrap.servers"@ && m@ == "kafka.bootstrap.servers cannot be empty"@
    } else {
        e matches EventFluxError::InvalidParameter { message: m, parameter: Some(p), .. }
            && p@ == "kafka.timeout"@ && m@ == "kafka.timeout must be a valid integer"@
    }
}

impl SourceFactory for KafkaSourceFactory {
    open spec fn refuses_with(&self, config: Map<Seq<char>, Seq<char>>, error: EventFluxError) -> bool {
        kafka_refusal(config, error)
    }

    open spec fn accepts(&self, config: Map<Seq<char>, Seq<char>>) -> bool {
        kafka_config_valid(config)
    }

    /// A source on the configured topic and brokers.
    open spec fn builds(&self, config: Map<Seq<char>, Seq<char>>, settings: Map<Seq<char>, Seq<char>>) -> bool {
        settings == map![
            "kafka.topic"@ => config["kafka.topic"@],
            "kafka.bootstrap.servers"@ => join_with(broker_list(config["kafka.bootstrap.servers"@]), ","@)
        ]
    }

    open spec fn format_names(&self) -> Seq<Seq<char>> {
        seq!["json"@, "avro"@, "bytes"@]
    }

    fn name(&self) -> (r: &'static str)
        ensures
            r@ == "kafka"@,
    {
        "kafka"
    }

    fn supported_formats(&self) -> (r: Vec<&'static str>) {
        let r = vec!["json", "avro", "bytes"];
        proof {
            assert(str_views(r@) =~= self.format_names());
        }
        r
    }

    fn required_parameters(&self) -> (r: Vec<&'static str>)
        ensures
            str_views(r@) == seq!["kafka.bootstrap.servers"@, "kafka.topic"@],
    {
        let r = vec!["kafka.bootstrap.servers", "kafka.topic"];
        proof {
            assert(str_views(r@) =~= seq!["kafka.bootstrap.servers"@, "kafka.topic"@]);
        }
        r
    }

    fn optional_parameters(&self) -> (r: Vec<&'static str>)
        ensures
            str_views(r@) == seq!["kafka.consumer.group"@, "kafka.timeout"@],
    {
        let r = vec!["kafka.consumer.group", "kafka.timeout"];
        proof {
            assert(str_views(r@) =~= seq!["kafka.consumer.group"@, "kafka.timeout"@]);
        }
        r
    }

    fn create_initialized(&self, config: &PropertyMap) -> (r: Result<Box<dyn Source>, EventFluxError>)
        ensures
            r is Ok <==> kafka_config_valid(config@),
    {
        match KafkaSourceConfig::parse(config) {
            Ok(parsed) => {
                let k = KafkaSource {
                    topic: parsed.topic,
                    bootstrap_servers: parsed.bootstrap_servers,
                    running: false,
                };
                let ghost g = k;
                let r: Result<Box<dyn Source>, EventFluxError> = Ok(Box::new(k));
                proof {
                    assert(r->Ok_0.settings() == g.settings());
                    assert(r->Ok_0.settings() =~= map![
                        "kafka.topic"@ => config@["kafka.topic"@],
                        "kafka.bootstrap.servers"@ => join_with(broker_list(config@["kafka.bootstrap.servers"@]), ","@)
                    ]);
                    assert(self.builds(config@, r->Ok_0.settings()));
                }
                r
            },
            Err(e) => {
                proof {
                    assert(kafka_refusal(config@, e));
                    assert(self.refuses_with(config@, e));
                }
                Err(e)
            },
        }
    }
}


/// The HTTP methods an HTTP sink accepts (compared in upper case).
pub open spec fn valid_http_method(m: Seq<char>) -> bool {
    m == "GET"@ || m == "POST"@ || m == "PUT"@ || m == "DELETE"@ || m == "PATCH"@
}

/// The method an HTTP sink is configured with: `http.method`, else `POST`.
pub open spec fn configured_method(m: Map<Seq<char>, Seq<char>>) -> Seq<char> {
    if m.contains_key("http.method"@) { m["http.method"@] } else { "POST"@ }
}

/// Whether an HTTP sink can be built from the configuration.
pub open spec fn http_config_valid(m: Map<Seq<char>, Seq<char>>) -> bool {
    &&& m.contains_key("http.url"@)
    &&& valid_http_method(uppercase(configured_method(m)))
    &&& optional_u64(m, "http.timeout"@, 30) is Some
}

/// Settings of an HTTP sink.
#[derive(Debug)]
pub struct HttpSinkConfig {
    pub url: String,
    pub method: String,
    pub headers: PropertyMap,
    pub timeout_secs: u64,
}

impl HttpSinkConfig {
    /// Reads the settings: the URL is required, the method must be one of
    /// GET, POST, PUT, DELETE, PATCH in any case, the timeout must be a number.
    pub fn parse(raw_config: &PropertyMap) -> (r: Result<Self, EventFluxError>)
        ensures
            r is Ok <==> http_config_valid(raw_config@),
            !raw_config@.contains_key("http.url"@) ==> (r matches Err(EventFluxError::InvalidParameter { parameter: Some(p), .. })
                && p@ == "http.url"@),
            raw_config@.contains_key("http.url"@) && !valid_http_method(uppercase(configured_method(raw_config@)))
                ==> (r matches Err(EventFluxError::InvalidParameter { message: msg, parameter: Some(p), .. })
                    && p@ == "http.method"@ && msg@ == "Invalid HTTP method: "@ + configured_method(raw_config@)),
            r is Err ==> http_refusal(raw_config@, r->Err_0),
            r matches Ok(c) ==> c.url@ == raw_config@["http.url"@]
                && c.method@ == uppercase(configured_method(raw_config@))
                && Some(c.timeout_secs as int) == optional_u64(raw_config@, "http.timeout"@, 30)
                && c.headers@ == Map::<Seq<char>, Seq<char>>::empty(),
    {
        let url = match raw_config.get("http.url") {
            Some(u) => u,
            None => {
                return Err(EventFluxError::missing_parameter("http.url"));
            },
        };
        let method = match raw_config.get("http.method") {
            Some(m) => m.clone(),
            None => owned("POST"),
        };
        let upper = to_uppercase(method.as_str());
        let u = upper.as_str();
        if !(str_eq(u, "GET") || str_eq(u, "POST") || str_eq(u, "PUT") || str_eq(u, "DELETE") || str_eq(u, "PATCH")) {
            let msg = concat("Invalid HTTP method: ", method.as_str());
            return Err(EventFluxError::invalid_parameter_with_details(
                msg.as_str(),
                "http.method",
                "one of: GET, POST, PUT, DELETE, PATCH",
            ));
        }
        let timeout_secs = match parse_optional_u64(raw_config, "http.timeout", 30) {
            Some(v) => v,
            None => {
                return Err(EventFluxError::invalid_parameter_with_details(
                    "http.timeout must be a valid integer",
                    "http.timeout",
                    "positive integer (seconds)",
                ));
            },
        };
        Ok(HttpSinkConfig { url: url.clone(), method: upper, headers: PropertyMap::new(), timeout_secs })
    }
}

/// An HTTP sink (requests are sent by the application).
#[derive(Debug)]
pub struct HttpSink {
    url: String,
    method: String,
    sent: u64,
    open: bool,
}

impl HttpSink {
    /// How many events the sink has been handed (saturating).
    pub closed spec fn sent_count(&self) -> u64 {
        self.sent
    }

    /// The target URL and the HTTP method.
    pub closed spec fn target(&self) -> (Seq<char>, Seq<char>) {
        (self.url@, self.method@)
    }
}

impl Sink for HttpSink {
    closed spec fn started(&self) -> bool {
        self.open
    }

    /// The target URL and the HTTP method.
    open spec fn settings(&self) -> Map<Seq<char>, Seq<char>> {
        map!["http.url"@ => self.target().0, "http.method"@ => self.target().1]
    }

    /// Counts the events handed over for sending.
    fn receive_events(&mut self, events: &[Event])
        ensures
            final(self).sent_count() == saturating_sum(old(self).sent_count(), events@.len() as int),
            final(self).target() == old(self).target(),
            final(self).started() == old(self).started(),
    {
        let n = events.len() as u64;
        self.sent = self.sent.saturating_add(n);
    }

    /// Marks the sink open.
    fn start(&mut self)
        ensures
            final(self).sent_count() == old(self).sent_count(),
            final(self).target() == old(self).target(),
    {
        self.open = true;
    }

    /// Marks the sink closed.
    fn stop(&mut self)
        ensures
            final(self).sent_count() == old(self).sent_count(),
            final(self).target() == old(self).target(),
    {
        self.open = false;
    }
}

/// Creates HTTP sinks.
#[derive(Debug, Clone)]
pub struct HttpSinkFactory;

impl HttpSinkFactory {
    pub fn clone_box(&self) -> Box<dyn SinkFactory> {
        Box::new(HttpSinkFactory)
    }
}

/// How an HTTP configuration is refused: a missing URL, a method that is not
/// one of GET, POST, PUT, DELETE, PATCH, a timeout that is not a number,
/// checked in that order.
pub open spec fn http_refusal(config: Map<Seq<char>, Seq<char>>, e: EventFluxError) -> bool {
    if !config.contains_key("http.url"@) {
        e matches EventFluxError::InvalidParameter { parameter: Some(p), .. } && p@ == "http.url"@
    } else if !valid_http_method(uppercase(configured_method(config))) {
        e matches EventFluxError::InvalidParameter { message: m, parameter: Some(p), .. }
            && p@ == "http.method"@ && m@ == "Invalid HTTP method: "@ + configured_method(config)
    } else {
        e matches EventFluxError::InvalidParameter { message: m, parameter: Some(p), .. }
            && p@ == "http.timeout"@ && m@ == "http.timeout must be a valid integer"@
    }
}

impl SinkFactory for HttpSinkFactory {
    open spec fn refuses_with(&self, config: Map<Seq<char>, Seq<char>>, error: EventFluxError) -> bool {
        http_refusal(config, error)
    }

    open spec fn accepts(&self, config: Map<Seq<char>, Seq<char>>) -> bool {
        http_config_valid(config)
    }

    /// A sink to the configured URL with the configured method in capitals.
    open spec fn builds(&self, config: Map<Seq<char>, Seq<char>>, settings: Map<Seq<char>, Seq<char>>) -> bool {
        settings == map![
            "http.url"@ => config["http.url"@],
            "http.method"@ => uppercase(configured_method(config))
        ]
    }

    open spec fn format_names(&self) -> Seq<Seq<char>> {
        seq!["json"@, "xml"@, "text"@]
    }

    fn name(&self) -> (r: &'static str)
        ensures
            r@ == "http"@,
    {
        "http"
    }

    fn supported_formats(&self) -> (r: Vec<&'static str>) {
        let r = vec!["json", "xml", "text"];
        proof {
            assert(str_views(r@) =~= self.format_names());
        }
        r
    }

    fn required_parameters(&self) -> (r: Vec<&'static str>)
        ensures
            str_views(r@) == seq!["http.url"@],
    {
        let r = vec!["http.url"];
        proof {
            assert(str_views(r@) =~= seq!["http.url"@]);
        }
        r
    }

    fn optional_parameters(&self) -> (r: Vec<&'static str>)
        ensures
            str_views(r@) == seq!["http.method"@, "http.headers"@, "http.timeout"@],
    {
        let r = vec!["http.method", "http.headers", "http.timeout"];
        proof {
            assert(str_views(r@) =~= seq!["http.method"@, "http.headers"@, "http.timeout"@]);
        }
        r
    }

    fn create_initialized(&self, config: &PropertyMap) -> (r: Result<Box<dyn Sink>, EventFluxError>)
        ensures
            r is Ok <==> http_config_valid(config@),
    {
        match HttpSinkConfig::parse(config) {
            Ok(parsed) => {
                let h = HttpSink { url: parsed.url, method: parsed.method, sent: 0, open: false };
                let ghost g = h;
                let r: Result<Box<dyn Sink>, EventFluxError> = Ok(Box::new(h));
                proof {
                    assert(r->Ok_0.settings() == g.settings());
                    assert(r->Ok_0.settings() =~= map![
                        "http.url"@ => config@["http.url"@],
                        "http.method"@ => uppercase(configured_method(config@))
                    ]);
                    assert(self.builds(config@, r->Ok_0.settings()));
                }
                r
            },
            Err(e) => {
                proof {
                    assert(http_refusal(config@, e));
                    assert(self.refuses_with(config@, e));
                }
                Err(e)
            },
        }
    }
}

/// A JSON source mapper placeholder that yields no events.
#[derive(Debug, Clone)]
struct PlaceholderJsonSourceMapper;

impl SourceMapper for PlaceholderJsonSourceMapper {
    open spec fn outcome(&self, input: &[u8]) -> Option<JsonMapOutcome> {
        Some(JsonMapOutcome::Skipped)
    }

    open spec fn csv_reading(&self) -> Option<CsvSourceMapper> {
        None
    }

    fn map(&self, input: &[u8]) -> (r: Result<Vec<Event>, EventFluxError>)
        ensures
            r matches Ok(v) && v@.len() == 0,
    {
        let r: Result<Vec<Event>, EventFluxError> = Ok(Vec::new());
        proof {
            assert(events_match(r, JsonMapOutcome::Skipped, 0));
        }
        r
    }
}

/// Creates JSON source mappers.
#[derive(Debug, Clone)]
pub struct JsonSourceMapperFactory;

impl JsonSourceMapperFactory {
    pub fn clone_box(&self) -> Box<dyn SourceMapperFactory> {
        Box::new(JsonSourceMapperFactory)
    }
}

impl SourceMapperFactory for JsonSourceMapperFactory {
    open spec fn accepts(&self, config: Map<Seq<char>, Seq<char>>) -> bool {
        true
    }

    /// A mapper that skips every document.
    open spec fn builds(&self, config: Map<Seq<char>, Seq<char>>, outcome: spec_fn(&[u8]) -> Option<JsonMapOutcome>, csv: Option<CsvSourceMapper>) -> bool {
        &&& csv is None
        &&& forall|input: &[u8]| #[trigger] outcome(input) == Some(JsonMapOutcome::Skipped)
    }

    /// Every configuration is accepted.
    open spec fn refuses_with(&self, config: Map<Seq<char>, Seq<char>>, error: EventFluxError) -> bool {
        false
    }

    fn name(&self) -> (r: &'static str)
        ensures
            r@ == "json"@,
    {
        "json"
    }

    fn required_parameters(&self) -> (r: Vec<&'static str>)
        ensures
            r@.len() == 0,
    {
        Vec::new()
    }

    fn optional_parameters(&self) -> (r: Vec<&'static str>)
        ensures
            str_views(r@) == seq!["json.fail-on-missing-attribute"@, "json.enclosing-element"@],
    {
        let r = vec!["json.fail-on-missing-attribute", "json.enclosing-element"];
        proof {
            assert(str_views(r@) =~= seq!["json.fail-on-missing-attribute"@, "json.enclosing-element"@]);
        }
        r
    }

    fn create_initialized(&self, config: &PropertyMap) -> (r: Result<Box<dyn SourceMapper>, EventFluxError>)
        ensures
            r is Ok,
    {
        let m = PlaceholderJsonSourceMapper;
        let ghost g = m;
        let r: Result<Box<dyn SourceMapper>, EventFluxError> = Ok(Box::new(m));
        proof {
            assert forall|input: &[u8]| #[trigger] r->Ok_0.outcome(input) == Some(JsonMapOutcome::Skipped) by {
                assert(r->Ok_0.outcome(input) == g.outcome(input));
            }
            assert(r->Ok_0.csv_reading() == g.csv_reading());
            assert(self.builds(config@, |input: &[u8]| r->Ok_0.outcome(input), r->Ok_0.csv_reading()));
        }
        r
    }
}

/// The delimiter a CSV sink mapper is configured with: `csv.delimiter`, else `,`.
pub open spec fn configured_delimiter(m: Map<Seq<char>, Seq<char>>) -> Seq<char> {
    if m.contains_key("csv.delimiter"@) { m["csv.delimiter"@] } else { ","@ }
}

/// A delimiter is one byte: a single ASCII character.
pub open spec fn single_byte(s: Seq<char>) -> bool {
    s.len() == 1 && (s[0] as u32) < 128
}

/// The header setting: `csv.header` parsed as a boolean, else `true`.
pub open spec fn configured_header(m: Map<Seq<char>, Seq<char>>) -> Option<bool> {
    if m.contains_key("csv.header"@) { parse_bool_spec(m["csv.header"@]) } else { Some(true) }
}

/// Settings of a CSV sink mapper.
#[derive(Debug, Clone)]
pub struct CsvSinkMapperConfig {
    pub delimiter: String,
    pub header: bool,
}

impl CsvSinkMapperConfig {
    /// Reads the settings: the delimiter must be one byte, the header flag
    /// `true` or `false`.
    pub fn parse(raw_config: &PropertyMap) -> (r: Result<Self, EventFluxError>)
        ensures
            r is Ok <==> (single_byte(configured_delimiter(raw_config@)) && configured_header(raw_config@) is Some),
            !single_byte(configured_delimiter(raw_config@)) ==> (r matches Err(EventFluxError::InvalidParameter { parameter: Some(p), .. })
                && p@ == "csv.delimiter"@),
            r is Err ==> csv_sink_refusal(raw_config@, r->Err_0),
            r matches Ok(c) ==> c.delimiter@ == configured_delimiter(raw_config@)
                && Some(c.header) == configured_header(raw_config@),
    {
        let delimiter = match raw_config.get("csv.delimiter") {
            Some(d) => d.clone(),
            None => owned(","),
        };
        let dv = chars_of(delimiter.as_str());
        if !(dv.len() == 1 && (dv[0] as u32) < 128) {
            return Err(EventFluxError::invalid_parameter_with_details(
                "CSV delimiter must be a single character",
                "csv.delimiter",
                "single character",
            ));
        }
        let header = match raw_config.get("csv.header") {
            Some(h) => match parse_bool(h.as_str()) {
                Some(b) => b,
                None => {
                    return Err(EventFluxError::invalid_parameter_with_details(
                        "csv.header must be 'true' or 'false'",
                        "csv.header",
                        "boolean",
                    ));
                },
            },
            None => true,
        };
        Ok(CsvSinkMapperConfig { delimiter, header })
    }
}

/// A CSV sink mapper placeholder that writes nothing.
#[derive(Debug)]
struct PlaceholderCsvSinkMapper {
    delimiter: String,
    header: bool,
}

impl SinkMapper for PlaceholderCsvSinkMapper {
    closed spec fn layout(&self) -> SinkLayout {
        SinkLayout::Csv { delimiter: self.delimiter, header: self.header }
    }

    fn map(&self, events: &[Event]) -> (r: Result<Vec<u8>, EventFluxError>)
        ensures
            r matches Ok(v) && v@.len() == 0,
    {
        Ok(Vec::new())
    }
}

/// Creates CSV sink mappers.
#[derive(Debug, Clone)]
pub struct CsvSinkMapperFactory;

impl CsvSinkMapperFactory {
    pub fn clone_box(&self) -> Box<dyn SinkMapperFactory> {
        Box::new(CsvSinkMapperFactory)
    }
}

/// How a CSV sink mapper configuration is refused: a delimiter that is not a
/// single ASCII character, else a header setting that is not a boolean.
pub open spec fn csv_sink_refusal(config: Map<Seq<char>, Seq<char>>, e: EventFluxError) -> bool {
    if !single_byte(configured_delimiter(config)) {
        e matches EventFluxError::InvalidParameter { message: m, parameter: Some(p), .. }
            && p@ == "csv.delimiter"@ && m@ == "CSV delimiter must be a single character"@
    } else {
        e matches EventFluxError::InvalidParameter { message: m, parameter: Some(p), .. }
            && p@ == "csv.header"@ && m@ == "csv.header must be 'true' or 'false'"@
    }
}

impl SinkMapperFactory for CsvSinkMapperFactory {
    open spec fn refuses_with(&self, config: Map<Seq<char>, Seq<char>>, error: EventFluxError) -> bool {
        csv_sink_refusal(config, error)
    }

    open spec fn accepts(&self, config: Map<Seq<char>, Seq<char>>) -> bool {
        single_byte(configured_delimiter(config)) && configured_header(config) is Some
    }

    /// CSV with the configured delimiter and header setting.
    open spec fn builds(&self, config: Map<Seq<char>, Seq<char>>, layout: SinkLayout) -> bool {
        layout matches SinkLayout::Csv { delimiter, header }
            && delimiter@ == configured_delimiter(config) && Some(header) == configured_header(config)
    }

    fn name(&self) -> (r: &'static str)
        ensures
            r@ == "csv"@,
    {
        "csv"
    }

    fn required_parameters(&self) -> (r: Vec<&'static str>)
        ensures
            r@.len() == 0,
    {
        Vec::new()
    }

    fn optional_parameters(&self) -> (r: Vec<&'static str>)
        ensures
            str_views(r@) == seq!["csv.delimiter"@, "csv.header"@],
    {
        let r = vec!["csv.delimiter", "csv.header"];
        proof {
            assert(str_views(r@) =~= seq!["csv.delimiter"@, "csv.header"@]);
        }
        r
    }

    fn create_initialized(&self, config: &PropertyMap) -> (r: Result<Box<dyn SinkMapper>, EventFluxError>)
        ensures
            r is Ok <==> (single_byte(configured_delimiter(config@)) && configured_header(config@) is Some),
    {
        match CsvSinkMapperConfig::parse(config) {
            Ok(parsed) => {
                let p = PlaceholderCsvSinkMapper { delimiter: parsed.delimiter, header: parsed.header };
                let ghost g = p;
                let r: Result<Box<dyn SinkMapper>, EventFluxError> = Ok(Box::new(p));
                proof {
                    assert(r->Ok_0.layout() == g.layout());
                    assert(self.builds(config@, r->Ok_0.layout()));
                }
                r
            },
            Err(e) => {
                proof {
                    assert(csv_sink_refusal(config@, e));
                    assert(self.refuses_with(config@, e));
                }
                Err(e)
            },
        }
    }
}

} // verus!
