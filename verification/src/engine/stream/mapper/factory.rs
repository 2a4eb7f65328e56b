//! Factories that build configured mappers from format-prefixed properties
//! (`json.mapping.orderId = $.order.id`, `json.ignore-parse-errors = true`),
//! and a registry of them by format name.

use vstd::prelude::*;
use crate::engine::exception::EventFluxError;
use crate::engine::stream::input::mapper::SourceMapper;
use crate::engine::stream::output::mapper::{SinkLayout, SinkMapper};
use crate::engine::stream::mapper::json_mapper::{JsonMapOutcome, JsonSinkMapper, JsonSourceMapper, json_source_outcome};
use crate::property_map::{NamedRegistry, PropertyMap, pair_views, map_of, keys_distinct, lemma_map_of_dom, lemma_map_of_at};
use crate::text::{chars_of, concat, eq_ignore_ascii_case, eq_ignore_ascii_case_spec, has_prefix, owned, strip_prefix};
use crate::number::{parse_unsigned_spec, parse_usize};
use crate::engine::stream::mapper::csv_mapper::{CsvSourceMapper, column_views};
use crate::engine::config::stream_config::opt_view;

verus! {

/// Builds source mappers of one format.
pub trait SourceMapperFactory {
    /// The format this factory serves.
    spec fn format(&self) -> Seq<char>;

    /// Whether the factory builds a mapper from `config`.
    spec fn accepts(&self, config: &PropertyMap) -> bool;

    /// Whether a mapper whose single-document outcome on each input is
    /// `outcome`, and whose CSV reading is `csv`, is one this factory builds
    /// from `config`.
    spec fn builds(&self, config: &PropertyMap, outcome: spec_fn(&[u8]) -> Option<JsonMapOutcome>, csv: Option<CsvSourceMapper>) -> bool;

    /// Whether `error` is how this factory refuses `config`.
    spec fn refuses_with(&self, config: &PropertyMap, error: EventFluxError) -> bool;

    /// A fully configured mapper, or why the configuration is refused.
    fn create_initialized(&self, config: &PropertyMap) -> (r: Result<Box<dyn SourceMapper>, EventFluxError>)
        ensures
            r is Ok <==> self.accepts(config),
            r matches Ok(m) ==> self.builds(config, |input: &[u8]| m.outcome(input), m.csv_reading()),
            r matches Err(e) ==> self.refuses_with(config, e),
    ;

    /// The format this factory serves (`json`, `csv`).
    fn format_name(&self) -> (r: &str)
        ensures
            r@ == self.format(),
    ;
}

/// Builds sink mappers of one format.
pub trait SinkMapperFactory {
    /// The format this factory serves.
    spec fn format(&self) -> &'static str;

    /// Whether the factory builds a mapper from `config`.
    spec fn accepts(&self, config: &PropertyMap) -> bool;

    /// Whether a mapper with `layout` is one this factory builds from `config`.
    spec fn builds(&self, config: &PropertyMap, layout: SinkLayout) -> bool;

    /// Whether `error` is how this factory refuses `config`.
    spec fn refuses_with(&self, config: &PropertyMap, error: EventFluxError) -> bool;

    fn create_initialized(&self, config: &PropertyMap) -> (r: Result<Box<dyn SinkMapper>, EventFluxError>)
        ensures
            r is Ok <==> self.accepts(config),
            r matches Ok(m) ==> self.builds(config, m.layout()),
            r matches Err(e) ==> self.refuses_with(config, e),
    ;

    /// The format this factory serves.
    fn format_name(&self) -> (r: &str)
        ensures
            r@ == self.format()@,
    ;
}

/// Whether a flag property is set: present and `true` in any case.
pub open spec fn flag_set(config: Map<Seq<char>, Seq<char>>, key: Seq<char>) -> bool {
    config.dom().contains(key) && eq_ignore_ascii_case_spec(config[key], "true"@)
}

fn flag(config: &PropertyMap, key: &str) -> (r: bool)
    ensures
        r == flag_set(config@, key@),
{
    match config.get(key) {
        Some(v) => {
            proof {
                reveal_strlit("true");
            }
            eq_ignore_ascii_case(v.as_str(), "true")
        },
        None => false,
    }
}

pub open spec fn mapping_prefix() -> Seq<char> {
    "json.mapping."@
}

/// The `json.mapping.*` entries, with the prefix removed from their keys.
pub open spec fn json_mappings_of(config: Map<Seq<char>, Seq<char>>) -> Map<Seq<char>, Seq<char>> {
    Map::new(
        |f: Seq<char>| config.dom().contains(mapping_prefix() + f),
        |f: Seq<char>| config[mapping_prefix() + f],
    )
}

proof fn lemma_prefix_cancel(p: Seq<char>, a: Seq<char>, b: Seq<char>)
    requires
        p + a == p + b,
    ensures
        a == b,
{
    assert(a =~= (p + a).subrange(p.len() as int, (p + a).len() as int));
    assert(b =~= (p + b).subrange(p.len() as int, (p + b).len() as int));
}

/// Adding `json.mapping.f` adds mapping `f`.
proof fn lemma_mappings_insert_prefixed(c: Map<Seq<char>, Seq<char>>, f: Seq<char>, v: Seq<char>)
    ensures
        json_mappings_of(c.insert(mapping_prefix() + f, v)) == json_mappings_of(c).insert(f, v),
{
    let a = json_mappings_of(c.insert(mapping_prefix() + f, v));
    let b = json_mappings_of(c).insert(f, v);
    assert forall|g: Seq<char>| a.dom().contains(g) <==> b.dom().contains(g) by {
        if mapping_prefix() + g == mapping_prefix() + f {
            lemma_prefix_cancel(mapping_prefix(), g, f);
        }
    }
    assert forall|g: Seq<char>| a.dom().contains(g) implies a[g] == b[g] by {
        if mapping_prefix() + g == mapping_prefix() + f {
            lemma_prefix_cancel(mapping_prefix(), g, f);
        }
    }
    assert(a =~= b);
}

/// Adding a key without the `json.mapping.` prefix adds no mapping.
proof fn lemma_mappings_insert_other(c: Map<Seq<char>, Seq<char>>, k: Seq<char>, v: Seq<char>)
    requires
        !has_prefix(k, mapping_prefix()),
    ensures
        json_mappings_of(c.insert(k, v)) == json_mappings_of(c),
{
    let a = json_mappings_of(c.insert(k, v));
    let b = json_mappings_of(c);
    assert forall|g: Seq<char>| #[trigger] a.dom().contains(g) <==> b.dom().contains(g) by {
        if mapping_prefix() + g == k {
            assert((mapping_prefix() + g).subrange(0, mapping_prefix().len() as int) =~= mapping_prefix());
        }
    }
    assert forall|g: Seq<char>| #[trigger] a.dom().contains(g) implies a[g] == b[g] by {
        if mapping_prefix() + g == k {
            assert((mapping_prefix() + g).subrange(0, mapping_prefix().len() as int) =~= mapping_prefix());
        }
    }
    assert(a =~= b);
}

/// The JSON source mapper options found in a configuration.
pub struct JsonSourceMapperConfig {
    pub mappings: PropertyMap,
    pub ignore_parse_errors: bool,
    pub date_format: Option<String>,
}

impl JsonSourceMapperConfig {
    /// Reads `json.mapping.<attribute>`, `json.ignore-parse-errors` and
    /// `json.date-format`.
    pub fn parse(config: &PropertyMap) -> (r: Result<Self, EventFluxError>)
        ensures
            r matches Ok(c) && c.mappings@ == json_mappings_of(config@)
                && c.ignore_parse_errors == flag_set(config@, "json.ignore-parse-errors"@)
                && opt_view(c.date_format) == (if config@.dom().contains("json.date-format"@) {
                    Some(config@["json.date-format"@])
                } else {
                    None::<Seq<char>>
                }),
    {
        let entries = config.entries();
        let ghost pairs = config.pairs();
        let mut mappings = PropertyMap::new();
        let mut i: usize = 0;
        assert(json_mappings_of(map_of(pairs.take(0))) =~= Map::<Seq<char>, Seq<char>>::empty());
        proof {
            reveal_strlit("json.mapping.");
        }
        while i < entries.len()
            invariant
                i <= entries@.len(),
                pair_views(entries@) == pairs,
                pairs == config.pairs(),
                mappings@ == json_mappings_of(map_of(pairs.take(i as int))),
            decreases entries@.len() - i,
        {
            proof {
                assert(pair_views(entries@)[i as int] == (entries@[i as int].0@, entries@[i as int].1@));
            }
            let ghost k = entries@[i as int].0@;
            let ghost v = entries@[i as int].1@;
            proof {
                let t = pairs.take(i + 1);
                assert(t.drop_last() =~= pairs.take(i as int));
                assert(t.last() == (k, v));
                assert(map_of(t) == map_of(pairs.take(i as int)).insert(k, v));
            }
            match strip_prefix(entries[i].0.as_str(), "json.mapping.") {
                Some(field) => {
                    proof {
                        lemma_mappings_insert_prefixed(map_of(pairs.take(i as int)), field@, v);
                        assert(mapping_prefix() + field@ =~= k);
                    }
                    mappings.insert(field, owned(entries[i].1.as_str()));
                },
                None => {
                    proof {
                        lemma_mappings_insert_other(map_of(pairs.take(i as int)), k, v);
                    }
                },
            }
            i = i + 1;
        }
        assert(pairs.take(entries@.len() as int) =~= pairs);
        let ignore_parse_errors = flag(config, "json.ignore-parse-errors");
        let date_format = match config.get("json.date-format") {
            Some(f) => Some(owned(f.as_str())),
            None => None,
        };
        Ok(JsonSourceMapperConfig { mappings, ignore_parse_errors, date_format })
    }
}

/// `m` is the JSON mapper a configuration describes: its `json.mapping.*`
/// entries, its parse-error and date options, and the default limits.
pub open spec fn json_mapper_configured(m: JsonSourceMapper, config: Map<Seq<char>, Seq<char>>) -> bool {
    &&& m.mappings@ == json_mappings_of(config)
    &&& m.ignore_parse_errors == flag_set(config, "json.ignore-parse-errors"@)
    &&& opt_view(m.date_format) == (if config.dom().contains("json.date-format"@) {
        Some(config["json.date-format"@])
    } else {
        None::<Seq<char>>
    })
    &&& m.max_input_size == 10 * 1024 * 1024
    &&& m.max_nesting_depth == 32
}

/// Builds JSON source mappers.
#[derive(Debug, Clone, Default)]
pub struct JsonSourceMapperFactory;

impl JsonSourceMapperFactory {
    /// The mapper a configuration describes: its `json.mapping.*` entries
    /// (auto-mapping when there are none), its parse-error and date options.
    pub fn create_json_mapper(&self, config: &PropertyMap) -> (r: Result<JsonSourceMapper, EventFluxError>)
        ensures
            r matches Ok(m) && m.mappings@ == json_mappings_of(config@)
                && m.ignore_parse_errors == flag_set(config@, "json.ignore-parse-errors"@)
                && opt_view(m.date_format) == (if config@.dom().contains("json.date-format"@) {
                    Some(config@["json.date-format"@])
                } else {
                    None::<Seq<char>>
                })
                && m.max_input_size == 10 * 1024 * 1024
                && m.max_nesting_depth == 32,
    {
        let parsed = JsonSourceMapperConfig::parse(config);
        match parsed {
            Ok(c) => {
                // With no mapping entries the mapper auto-maps.
                let mut mapper = JsonSourceMapper::with_mappings(c.mappings);
                mapper.set_ignore_parse_errors(c.ignore_parse_errors);
                mapper.set_date_format(c.date_format);
                Ok(mapper)
            },
            Err(e) => Err(e),
        }
    }
}

impl SourceMapperFactory for JsonSourceMapperFactory {
    open spec fn format(&self) -> Seq<char> {
        "json"@
    }

    /// Every configuration gives a JSON mapper.
    open spec fn accepts(&self, config: &PropertyMap) -> bool {
        true
    }

    /// Every configuration is accepted.
    open spec fn refuses_with(&self, config: &PropertyMap, error: EventFluxError) -> bool {
        false
    }

    /// A JSON mapper with the settings `config` describes.
    open spec fn builds(&self, config: &PropertyMap, outcome: spec_fn(&[u8]) -> Option<JsonMapOutcome>, csv: Option<CsvSourceMapper>) -> bool {
        &&& csv is None
        &&& exists|m: JsonSourceMapper| #[trigger] json_mapper_configured(m, config@)
            && forall|input: &[u8]| #[trigger] outcome(input) == Some(json_source_outcome(m, input@))
    }

    fn create_initialized(&self, config: &PropertyMap) -> (r: Result<Box<dyn SourceMapper>, EventFluxError>)
        ensures
            r matches Ok(b) && exists|m: JsonSourceMapper| #[trigger] json_mapper_configured(m, config@)
                && forall|input: &[u8]| #[trigger] b.outcome(input) == Some(json_source_outcome(m, input@)),
    {
        match self.create_json_mapper(config) {
            Ok(m) => {
                let ghost mv = m;
                let r: Result<Box<dyn SourceMapper>, EventFluxError> = Ok(Box::new(m));
                proof {
                    assert(r->Ok_0.csv_reading() == mv.csv_reading());
                    assert(json_mapper_configured(mv, config@));
                    assert forall|input: &[u8]| #[trigger] r->Ok_0.outcome(input) == Some(json_source_outcome(mv, input@)) by {}
                }
                r
            },
            Err(e) => Err(e),
        }
    }

    fn format_name(&self) -> (r: &str) {
        "json"
    }
}

/// The JSON sink mapper options found in a configuration.
pub struct JsonSinkMapperConfig {
    pub template: Option<String>,
    pub pretty_print: bool,
}

impl JsonSinkMapperConfig {
    /// Reads `json.template` and `json.pretty-print`.
    pub fn parse(config: &PropertyMap) -> (r: Result<Self, EventFluxError>)
        ensures
            r matches Ok(c) && opt_view(c.template) == (if config@.dom().contains("json.template"@) {
                Some(config@["json.template"@])
            } else {
                None::<Seq<char>>
            }) && c.pretty_print == flag_set(config@, "json.pretty-print"@),
    {
        let template = match config.get("json.template") {
            Some(t) => Some(owned(t.as_str())),
            None => None,
        };
        let pretty_print = flag(config, "json.pretty-print");
        Ok(JsonSinkMapperConfig { template, pretty_print })
    }

    /// The sink mapper these options describe.
    pub fn into_mapper(self) -> (r: JsonSinkMapper)
        ensures
            r.template == self.template,
            r.pretty_print == self.pretty_print,
    {
        let mut mapper = match self.template {
            Some(t) => JsonSinkMapper::with_template(t),
            None => JsonSinkMapper::new(),
        };
        mapper.set_pretty_print(self.pretty_print);
        mapper
    }
}

pub open spec fn unknown_format_message(kind: Seq<char>, format: Seq<char>) -> Seq<char> {
    "Unknown "@ + kind + " mapper format: "@ + format
}

/// Whether `e` is the configuration error for an unknown `kind` format.
pub open spec fn unknown_format_error(e: EventFluxError, kind: Seq<char>, format: Seq<char>) -> bool {
    e matches EventFluxError::Configuration { message, config_key: Some(k) }
        && message@ == unknown_format_message(kind, format) && k@ == "format"@
}

fn unknown_format(kind: &str, format: &str) -> (e: EventFluxError)
    ensures
        unknown_format_error(e, kind@, format@),
{
    let m = concat("Unknown ", kind);
    let m = concat(m.as_str(), " mapper format: ");
    EventFluxError::Configuration { message: concat(m.as_str(), format), config_key: Some(owned("format")) }
}

// ---------------------------------------------------------------------------
// CSV
// ---------------------------------------------------------------------------

pub open spec fn csv_mapping_prefix() -> Seq<char> {
    "csv.mapping."@
}

/// `ok` with `acc` put in front of its mappings; an error stays.
pub open spec fn prepend_mappings(
    acc: Seq<(Seq<char>, usize)>,
    r: Result<Seq<(Seq<char>, usize)>, (Seq<char>, Seq<char>, Seq<char>)>,
) -> Result<Seq<(Seq<char>, usize)>, (Seq<char>, Seq<char>, Seq<char>)> {
    match r {
        Ok(l) => Ok(acc + l),
        Err(e) => Err(e),
    }
}

/// The `csv.mapping.<attribute> = <column>` entries from position `i` on,
/// in order: the attribute names and column indexes, or the first entry
/// (key, attribute, value) whose value is not a column index.
pub open spec fn csv_mappings_from(pairs: Seq<(Seq<char>, Seq<char>)>, i: int) -> Result<Seq<(Seq<char>, usize)>, (Seq<char>, Seq<char>, Seq<char>)>
    decreases pairs.len() - i,
{
    if i < 0 || i >= pairs.len() {
        Ok(Seq::empty())
    } else if has_prefix(pairs[i].0, csv_mapping_prefix()) {
        let field = pairs[i].0.subrange(csv_mapping_prefix().len() as int, pairs[i].0.len() as int);
        match parse_unsigned_spec(pairs[i].1, usize::MAX as int) {
            Some(n) => prepend_mappings(seq![(field, n as usize)], csv_mappings_from(pairs, i + 1)),
            None => Err((pairs[i].0, field, pairs[i].1)),
        }
    } else {
        csv_mappings_from(pairs, i + 1)
    }
}

/// Every `csv.mapping.*` value of a configuration is a column index.
pub open spec fn csv_mappings_valid(config: Map<Seq<char>, Seq<char>>) -> bool {
    forall|k: Seq<char>| #[trigger] config.contains_key(k) && has_prefix(k, csv_mapping_prefix())
        ==> parse_unsigned_spec(config[k], usize::MAX as int) is Some
}

/// The mappings from position `i` on read without error exactly when every
/// mapping value from there on is a column index.
proof fn lemma_csv_mappings_from_ok(pairs: Seq<(Seq<char>, Seq<char>)>, i: int)
    requires
        0 <= i <= pairs.len(),
    ensures
        csv_mappings_from(pairs, i) is Ok <==> forall|j: int| i <= j < pairs.len() && has_prefix(#[trigger] pairs[j].0, csv_mapping_prefix())
            ==> parse_unsigned_spec(pairs[j].1, usize::MAX as int) is Some,
    decreases pairs.len() - i,
{
    if i < pairs.len() {
        lemma_csv_mappings_from_ok(pairs, i + 1);
    }
}

/// Reading the mappings of a property map succeeds exactly when its view's
/// mapping values are all column indexes.
proof fn lemma_csv_mappings_view(pairs: Seq<(Seq<char>, Seq<char>)>)
    requires
        keys_distinct(pairs),
    ensures
        csv_mappings_from(pairs, 0) is Ok <==> csv_mappings_valid(map_of(pairs)),
{
    lemma_csv_mappings_from_ok(pairs, 0);
    let m = map_of(pairs);
    if csv_mappings_from(pairs, 0) is Ok {
        assert forall|k: Seq<char>| #[trigger] m.contains_key(k) && has_prefix(k, csv_mapping_prefix())
            implies parse_unsigned_spec(m[k], usize::MAX as int) is Some by {
            lemma_map_of_dom(pairs, k);
            let j = choose|j: int| 0 <= j < pairs.len() && pairs[j].0 == k;
            lemma_map_of_at(pairs, j);
        }
    }
    if csv_mappings_valid(m) {
        assert forall|j: int| 0 <= j < pairs.len() && has_prefix(#[trigger] pairs[j].0, csv_mapping_prefix())
            implies parse_unsigned_spec(pairs[j].1, usize::MAX as int) is Some by {
            lemma_map_of_at(pairs, j);
        }
    }
}

/// The delimiter a configuration sets: the first character of
/// `csv.delimiter`, else `,`.
pub open spec fn csv_delimiter(config: Map<Seq<char>, Seq<char>>) -> char {
    if config.dom().contains("csv.delimiter"@) && config["csv.delimiter"@].len() > 0 {
        config["csv.delimiter"@][0]
    } else {
        ','
    }
}

/// `m` reads CSV with the settings `config` describes: the column mappings in
/// the order of the entries, the delimiter and the two flags.
pub open spec fn csv_mapper_configured(m: CsvSourceMapper, config: &PropertyMap) -> bool {
    &&& csv_mappings_from(config.pairs(), 0) matches Ok(ms) && column_views(m.mappings@) == ms
    &&& m.delimiter == csv_delimiter(config@)
    &&& m.has_header == flag_set(config@, "csv.has-header"@)
    &&& m.ignore_parse_errors == flag_set(config@, "csv.ignore-parse-errors"@)
}

/// The text of a column-index error, up to the parser's reason.
pub open spec fn column_index_message_prefix(field: Seq<char>, value: Seq<char>) -> Seq<char> {
    "Invalid column index for "@ + field + ": '"@ + value + "' ("@
}

/// The CSV source mapper options found in a configuration.
pub struct CsvSourceMapperConfig {
    /// Attribute name and column index, in the order of the entries.
    pub mappings: Vec<(String, usize)>,
    pub delimiter: char,
    pub has_header: bool,
    pub ignore_parse_errors: bool,
}

/// Why `str::parse::<usize>` refuses `s` (the text of its error).
fn parse_failure_reason(s: &str) -> (r: &'static str) {
    let v = chars_of(s);
    if v.len() == 0 {
        return "cannot parse integer from empty string";
    }
    let from: usize = if v[0] == '+' && v.len() > 1 { 1 } else { 0 };
    let mut i = from;
    while i < v.len()
        invariant
            from <= i <= v@.len(),
        decreases v@.len() - i,
    {
        if !('0' <= v[i] && v[i] <= '9') {
            return "invalid digit found in string";
        }
        i = i + 1;
    }
    "number too large to fit in target type"
}

impl CsvSourceMapperConfig {
    /// Reads `csv.mapping.<attribute>` (column indexes), `csv.delimiter`,
    /// `csv.has-header` and `csv.ignore-parse-errors`; a mapping whose value
    /// is not a column index is a configuration error on its key.
    pub fn parse(config: &PropertyMap) -> (r: Result<Self, EventFluxError>)
        ensures
            csv_mappings_from(config.pairs(), 0) matches Ok(ms) ==> (r matches Ok(c)
                && column_views(c.mappings@) == ms
                && c.delimiter == csv_delimiter(config@)
                && c.has_header == flag_set(config@, "csv.has-header"@)
                && c.ignore_parse_errors == flag_set(config@, "csv.ignore-parse-errors"@)),
            r is Ok <==> csv_mappings_valid(config@),
            csv_mappings_from(config.pairs(), 0) matches Err((key, field, value)) ==> (r matches Err(EventFluxError::Configuration { message, config_key: Some(k) })
                && k@ == key && has_prefix(message@, column_index_message_prefix(field, value))),
    {
        let entries = config.entries();
        let ghost pairs = config.pairs();
        proof {
            lemma_csv_mappings_view(pairs);
        }
        let mut mappings: Vec<(String, usize)> = Vec::new();
        let mut i: usize = 0;
        proof {
            reveal_strlit("csv.mapping.");
            assert(column_views(mappings@) =~= Seq::<(Seq<char>, usize)>::empty());
            assert(prepend_mappings(Seq::empty(), csv_mappings_from(pairs, 0)) =~= csv_mappings_from(pairs, 0)) by {
                match csv_mappings_from(pairs, 0) {
                    Ok(l) => { assert(Seq::<(Seq<char>, usize)>::empty() + l =~= l); },
                    Err(_) => {},
                }
            }
        }
        while i < entries.len()
            invariant
                i <= entries@.len(),
                pair_views(entries@) == pairs,
                pairs == config.pairs(),
                csv_mappings_from(pairs, 0) == prepend_mappings(column_views(mappings@), csv_mappings_from(pairs, i as int)),
                csv_mappings_from(pairs, 0) is Ok <==> csv_mappings_valid(config@),
            decreases entries@.len() - i,
        {
            proof {
                assert(pair_views(entries@)[i as int] == (entries@[i as int].0@, entries@[i as int].1@));
            }
            match strip_prefix(entries[i].0.as_str(), "csv.mapping.") {
                Some(field) => {
                    match parse_usize(entries[i].1.as_str()) {
                        Some(n) => {
                            let ghost before = column_views(mappings@);
                            mappings.push((field, n));
                            proof {
                                assert(column_views(mappings@) =~= before.push((field@, n)));
                                let rest = csv_mappings_from(pairs, i + 1);
                                match rest {
                                    Ok(l) => {
                                        assert(before + (seq![(field@, n)] + l) =~= before.push((field@, n)) + l);
                                    },
                                    Err(_) => {},
                                }
                            }
                        },
                        None => {
                            let m = concat("Invalid column index for ", field.as_str());
                            let m = concat(m.as_str(), ": '");
                            let m = concat(m.as_str(), entries[i].1.as_str());
                            let m = concat(m.as_str(), "' (");
                            let ghost prefix = m@;
                            let m = concat(m.as_str(), parse_failure_reason(entries[i].1.as_str()));
                            let m = concat(m.as_str(), ")");
                            proof {
                                assert(prefix == column_index_message_prefix(field@, entries@[i as int].1@));
                                assert(m@.subrange(0, prefix.len() as int) =~= prefix);
                            }
                            return Err(EventFluxError::configuration_with_key(m.as_str(), entries[i].0.as_str()));
                        },
                    }
                },
                None => {},
            }
            i = i + 1;
        }
        proof {
            assert(column_views(mappings@) + Seq::<(Seq<char>, usize)>::empty() =~= column_views(mappings@));
        }
        let delimiter = match config.get("csv.delimiter") {
            Some(d) => {
                let dv = chars_of(d.as_str());
                if dv.len() > 0 { dv[0] } else { ',' }
            },
            None => ',',
        };
        let has_header = flag(config, "csv.has-header");
        let ignore_parse_errors = flag(config, "csv.ignore-parse-errors");
        Ok(CsvSourceMapperConfig { mappings, delimiter, has_header, ignore_parse_errors })
    }
}

/// Builds CSV source mappers.
#[derive(Debug, Clone, Default)]
pub struct CsvSourceMapperFactory;

impl SourceMapperFactory for CsvSourceMapperFactory {
    open spec fn format(&self) -> Seq<char> {
        "csv"@
    }

    /// Every mapping value must be a column index.
    open spec fn accepts(&self, config: &PropertyMap) -> bool {
        csv_mappings_valid(config@)
    }

    /// The configuration error on the first mapping that is not a column index.
    open spec fn refuses_with(&self, config: &PropertyMap, error: EventFluxError) -> bool {
        csv_mappings_from(config.pairs(), 0) matches Err((key, field, value))
            && error matches EventFluxError::Configuration { message, config_key: Some(k) }
            && k@ == key && has_prefix(message@, column_index_message_prefix(field, value))
    }

    /// A CSV mapper with the settings `config` describes, describing no
    /// single-document outcome.
    open spec fn builds(&self, config: &PropertyMap, outcome: spec_fn(&[u8]) -> Option<JsonMapOutcome>, csv: Option<CsvSourceMapper>) -> bool {
        &&& forall|input: &[u8]| #[trigger] outcome(input) is None
        &&& csv matches Some(c) && csv_mapper_configured(c, config)
    }

    fn create_initialized(&self, config: &PropertyMap) -> (r: Result<Box<dyn SourceMapper>, EventFluxError>) {
        match CsvSourceMapperConfig::parse(config) {
            Ok(c) => {
                let mut mapper = CsvSourceMapper::with_mappings(c.mappings);
                mapper.set_delimiter(c.delimiter);
                mapper.set_has_header(c.has_header);
                mapper.set_ignore_parse_errors(c.ignore_parse_errors);
                let ghost g = mapper;
                let r: Result<Box<dyn SourceMapper>, EventFluxError> = Ok(Box::new(mapper));
                proof {
                    assert(r->Ok_0.csv_reading() == g.csv_reading());
                    assert(csv_mapper_configured(g, config));
                    assert forall|input: &[u8]| #[trigger] r->Ok_0.outcome(input) is None by {
                        assert(r->Ok_0.outcome(input) == g.outcome(input));
                    }
                }
                r
            },
            Err(e) => Err(e),
        }
    }

    fn format_name(&self) -> (r: &str) {
        "csv"
    }
}

/// A source mapper factory as the registry holds it. Registration takes the
/// factory in this wrapper: a bare `Box<dyn ..>` handed on is coerced, and
/// the registry's contracts could then not speak of the very factory given.
pub struct SourceFactoryEntry(pub Box<dyn SourceMapperFactory>);

/// A sink mapper factory as the registry holds it (see `SourceFactoryEntry`).
pub struct SinkFactoryEntry(pub Box<dyn SinkMapperFactory>);

/// The entry of the JSON source mapper factory.
fn json_entry() -> (r: SourceFactoryEntry)
    ensures
        forall|c: &PropertyMap| #[trigger] r.0.accepts(c) == JsonSourceMapperFactory.accepts(c),
        forall|c: &PropertyMap, o: spec_fn(&[u8]) -> Option<JsonMapOutcome>, v: Option<CsvSourceMapper>|
            #[trigger] r.0.builds(c, o, v) == JsonSourceMapperFactory.builds(c, o, v),
{
    SourceFactoryEntry(Box::new(JsonSourceMapperFactory))
}

/// The entry of the CSV source mapper factory.
fn csv_entry() -> (r: SourceFactoryEntry)
    ensures
        forall|c: &PropertyMap| #[trigger] r.0.accepts(c) == CsvSourceMapperFactory.accepts(c),
        forall|c: &PropertyMap, o: spec_fn(&[u8]) -> Option<JsonMapOutcome>, v: Option<CsvSourceMapper>|
            #[trigger] r.0.builds(c, o, v) == CsvSourceMapperFactory.builds(c, o, v),
{
    SourceFactoryEntry(Box::new(CsvSourceMapperFactory))
}

/// Mapper factories by format name.
pub struct MapperFactoryRegistry {
    source_factories: NamedRegistry<SourceFactoryEntry>,
    sink_factories: NamedRegistry<SinkFactoryEntry>,
}

impl MapperFactoryRegistry {
    /// The registered source mapper factories, by format.
    pub closed spec fn source_entries(&self) -> Map<Seq<char>, SourceFactoryEntry> {
        self.source_factories.items()
    }

    /// The registered sink mapper factories, by format.
    pub closed spec fn sink_entries(&self) -> Map<Seq<char>, SinkFactoryEntry> {
        self.sink_factories.items()
    }

    /// A registry holding the JSON source mapper factory under `json` and the
    /// CSV one under `csv`. The JSON and CSV sink mapper factories write
    /// floating-point values as text, which this library does not do: the
    /// application registers them (`register_sink_factory`), so a new
    /// registry has no sink formats.
    pub fn new() -> (r: Self)
        ensures
            r.source_entries().dom() == set!["json"@, "csv"@],
            forall|c: &PropertyMap| #[trigger] r.source_entries()["json"@].0.accepts(c) == JsonSourceMapperFactory.accepts(c),
            forall|c: &PropertyMap, o: spec_fn(&[u8]) -> Option<JsonMapOutcome>, v: Option<CsvSourceMapper>|
                #[trigger] r.source_entries()["json"@].0.builds(c, o, v) == JsonSourceMapperFactory.builds(c, o, v),
            forall|c: &PropertyMap| #[trigger] r.source_entries()["csv"@].0.accepts(c) == CsvSourceMapperFactory.accepts(c),
            forall|c: &PropertyMap, o: spec_fn(&[u8]) -> Option<JsonMapOutcome>, v: Option<CsvSourceMapper>|
                #[trigger] r.source_entries()["csv"@].0.builds(c, o, v) == CsvSourceMapperFactory.builds(c, o, v),
            r.sink_entries().dom() == Set::<Seq<char>>::empty(),
    {
        proof {
            reveal_strlit("json");
            reveal_strlit("csv");
            assert("json"@.len() == 4 && "csv"@.len() == 3);
        }
        let mut source_factories: NamedRegistry<SourceFactoryEntry> = NamedRegistry::new();
        source_factories.register(owned("json"), json_entry());
        source_factories.register(owned("csv"), csv_entry());
        let r = MapperFactoryRegistry { source_factories, sink_factories: NamedRegistry::new() };
        proof {
            assert(r.source_entries().dom() =~= set!["json"@, "csv"@]);
        }
        r
    }

    /// Registers `factory` under its format, replacing any factory of that
    /// format; every other format keeps its factory.
    pub fn register_source_factory(&mut self, factory: SourceFactoryEntry)
        ensures
            final(self).source_entries() == old(self).source_entries().insert(factory.0.format(), factory),
            final(self).sink_entries() == old(self).sink_entries(),
    {
        let format = owned(factory.0.format_name());
        self.source_factories.register(format, factory);
    }

    /// Registers `factory` under its format, replacing any factory of that
    /// format; every other format keeps its factory.
    pub fn register_sink_factory(&mut self, factory: SinkFactoryEntry)
        ensures
            final(self).sink_entries() == old(self).sink_entries().insert(factory.0.format()@, factory),
            final(self).source_entries() == old(self).source_entries(),
    {
        let format = owned(factory.0.format_name());
        self.sink_factories.register(format, factory);
    }

    /// A source mapper of `format` built from `config` by the registered
    /// factory: what that factory's `create_initialized` returns; an unknown
    /// format is a configuration error.
    pub fn create_source_mapper(&self, format: &str, config: &PropertyMap) -> (r: Result<Box<dyn SourceMapper>, EventFluxError>)
        ensures
            !self.source_entries().contains_key(format@) ==> (r matches Err(e) && unknown_format_error(e, "source"@, format@)),
            self.source_entries().contains_key(format@) ==> (r is Ok <==> self.source_entries()[format@].0.accepts(config)),
            r matches Ok(m) ==> self.source_entries().contains_key(format@)
                && self.source_entries()[format@].0.builds(config, |input: &[u8]| m.outcome(input), m.csv_reading()),
            self.source_entries().contains_key(format@) ==> (r matches Err(e)
                ==> self.source_entries()[format@].0.refuses_with(config, e)),
    {
        match self.source_factories.get(format) {
            Some(f) => {
                let r = f.0.create_initialized(config);
                proof {
                    assert(*f == self.source_factories.items()[format@]);
                }
                r
            },
            None => Err(unknown_format("source", format)),
        }
    }

    /// A sink mapper of `format` built from `config` by the registered
    /// factory; an unknown format is a configuration error.
    pub fn create_sink_mapper(&self, format: &str, config: &PropertyMap) -> (r: Result<Box<dyn SinkMapper>, EventFluxError>)
        ensures
            !self.sink_entries().contains_key(format@) ==> (r matches Err(e) && unknown_format_error(e, "sink"@, format@)),
            self.sink_entries().contains_key(format@) ==> (r is Ok <==> self.sink_entries()[format@].0.accepts(config)),
            r matches Ok(m) ==> self.sink_entries().contains_key(format@)
                && self.sink_entries()[format@].0.builds(config, m.layout()),
            self.sink_entries().contains_key(format@) ==> (r matches Err(e)
                ==> self.sink_entries()[format@].0.refuses_with(config, e)),
    {
        match self.sink_factories.get(format) {
            Some(f) => {
                let r = f.0.create_initialized(config);
                proof {
                    assert(*f == self.sink_factories.items()[format@]);
                }
                r
            },
            None => Err(unknown_format("sink", format)),
        }
    }
}

} // verus!
