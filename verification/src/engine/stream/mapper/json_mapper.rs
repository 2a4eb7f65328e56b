//! Mapping between JSON and events.
//!
//! A source mapper without `mapping.*` entries maps every top-level field of
//! the document, in key order; with them, every attribute comes from a
//! JSONPath (in the order of the attribute names), and no field is mapped
//! automatically.

use vstd::prelude::*;
use crate::engine::event::{AttributeValue, AttrView, Event, attr_views};
use crate::engine::exception::EventFluxError;
use crate::engine::config::stream_config::opt_view;
use crate::engine::stream::input::mapper::SourceMapper;
use crate::engine::stream::mapper::csv_mapper::CsvSourceMapper;
use crate::engine::stream::mapper::json_value::{JsonValue, json_parse, parse_json, json_field, json_attr, json_path_lookup, mapping_failure, mapping_failed, extract_json_path, json_value_to_attribute, opt_text, field_of};
use crate::number::{int_text, usize_to_string, i64_to_string, i32_to_string};
use crate::ordering::{sorted_by_key, sort_by_key_text, keyed, lemma_sorted_from};
use crate::property_map::{PropertyMap, pair_views, string_views};
use crate::text::{chars_of, concat, owned, replaced, replace_str, string_from_chars};

verus! {

/// Reads events from JSON documents.
pub struct JsonSourceMapper {
    /// Attribute name to JSONPath; empty means every top-level field.
    pub mappings: PropertyMap,
    /// Skip documents that do not parse instead of failing.
    pub ignore_parse_errors: bool,
    /// A `chrono` format with which string values are read as timestamps.
    pub date_format: Option<String>,
    /// Largest input accepted, in bytes.
    pub max_input_size: usize,
    /// Largest number of parts a JSONPath may have.
    pub max_nesting_depth: usize,
}

/// What mapping a document comes to.
pub enum JsonMapOutcome {
    /// The document did not parse and parse errors are ignored: no event.
    Skipped,
    /// One event with these attribute values.
    Mapped(Seq<AttrView>),
    /// The mapping failed with this message.
    Failed(Seq<char>),
}

/// The attribute values of `items` in order, or the first failure among them.
pub open spec fn collect_attrs(items: Seq<Result<AttrView, Seq<char>>>) -> Result<Seq<AttrView>, Seq<char>>
    decreases items.len(),
{
    if items.len() == 0 {
        Ok(Seq::empty())
    } else {
        match collect_attrs(items.drop_last()) {
            Err(m) => Err(m),
            Ok(p) => match items.last() {
                Err(m) => Err(m),
                Ok(a) => Ok(p.push(a)),
            },
        }
    }
}

/// A failure among the first `k` items is the failure of all of them.
proof fn lemma_collect_failed(items: Seq<Result<AttrView, Seq<char>>>, k: int)
    requires
        0 <= k <= items.len(),
        collect_attrs(items.take(k)) is Err,
    ensures
        collect_attrs(items) == collect_attrs(items.take(k)),
    decreases items.len() - k,
{
    if k < items.len() {
        let t = items.take(k + 1);
        assert(t.drop_last() =~= items.take(k));
        lemma_collect_failed(items, k + 1);
    } else {
        assert(items.take(k) =~= items);
    }
}

/// The member names of an object, each with its position.
pub open spec fn member_keys(members: Seq<(String, JsonValue)>) -> Seq<(Seq<char>, usize)> {
    Seq::new(members.len(), |i: int| (members[i].0@, i as usize))
}

/// The attribute names of the mappings, each with its position.
pub open spec fn mapping_keys(pairs: Seq<(Seq<char>, Seq<char>)>) -> Seq<(Seq<char>, usize)> {
    Seq::new(pairs.len(), |i: int| (pairs[i].0, i as usize))
}

/// Auto-mapping: the fields of the root object in key order.
pub open spec fn auto_items(doc: JsonValue, members: Seq<(String, JsonValue)>, fmt: Option<Seq<char>>) -> Seq<Result<AttrView, Seq<char>>> {
    sorted_by_key(member_keys(members)).map_values(
        |p: (Seq<char>, usize)|
            match json_field(doc, p.0) {
                Some(v) => json_attr(v, fmt),
                None => Ok(AttrView::Null),
            },
    )
}

pub open spec fn auto_map_attrs(doc: JsonValue, fmt: Option<Seq<char>>) -> Result<Seq<AttrView>, Seq<char>> {
    match doc {
        JsonValue::Object(members, _) => collect_attrs(auto_items(doc, members@, fmt)),
        _ => Err("JSON root must be an object for auto-mapping"@),
    }
}

/// Explicit mapping: one JSONPath per attribute, in attribute-name order.
pub open spec fn explicit_items(
    doc: JsonValue,
    pairs: Seq<(Seq<char>, Seq<char>)>,
    fmt: Option<Seq<char>>,
    max_depth: int,
) -> Seq<Result<AttrView, Seq<char>>> {
    sorted_by_key(mapping_keys(pairs)).map_values(
        |p: (Seq<char>, usize)|
            if p.1 < pairs.len() {
                match json_path_lookup(doc, pairs[p.1 as int].1, max_depth) {
                    Err(m) => Err(m),
                    Ok(v) => json_attr(v, fmt),
                }
            } else {
                Ok(AttrView::Null)
            },
    )
}

pub open spec fn size_message(size: int, max: int) -> Seq<char> {
    "Input size "@ + int_text(size) + " bytes exceeds maximum allowed "@ + int_text(max) + " bytes"@
}

pub open spec fn parse_error_message(e: Seq<char>) -> Seq<char> {
    "JSON parse error: "@ + e
}

/// What mapper `m` makes of `input`.
pub open spec fn json_source_outcome(m: JsonSourceMapper, input: Seq<u8>) -> JsonMapOutcome {
    if input.len() > m.max_input_size {
        JsonMapOutcome::Failed(size_message(input.len() as int, m.max_input_size as int))
    } else {
        match json_parse(input) {
            Err(e) => if m.ignore_parse_errors {
                JsonMapOutcome::Skipped
            } else {
                JsonMapOutcome::Failed(parse_error_message(e))
            },
            Ok(doc) => {
                let fmt = opt_view(m.date_format);
                let data = if m.mappings@.dom().len() == 0 {
                    auto_map_attrs(doc, fmt)
                } else {
                    explicit_items_attrs(doc, m, fmt)
                };
                match data {
                    Ok(d) => JsonMapOutcome::Mapped(d),
                    Err(e) => JsonMapOutcome::Failed(e),
                }
            },
        }
    }
}

pub open spec fn explicit_items_attrs(doc: JsonValue, m: JsonSourceMapper, fmt: Option<Seq<char>>) -> Result<Seq<AttrView>, Seq<char>> {
    collect_attrs(explicit_items(doc, m.mappings.pairs(), fmt, m.max_nesting_depth as int))
}

/// `events` is what outcome `o` yields, at time `timestamp`.
pub open spec fn events_match(r: Result<Vec<Event>, EventFluxError>, o: JsonMapOutcome, timestamp: i64) -> bool {
    match o {
        JsonMapOutcome::Skipped => r matches Ok(ev) && ev@.len() == 0,
        JsonMapOutcome::Mapped(d) => r matches Ok(ev) && ev@.len() == 1 && ev@[0].timestamp == timestamp
            && attr_views(ev@[0].data@) == d && !ev@[0].is_expired,
        JsonMapOutcome::Failed(msg) => r matches Err(e) && mapping_failure(e, msg),
    }
}

/// The current time in milliseconds since the epoch (0 if the clock is
/// before it).
#[verifier::external_body]
pub(crate) fn current_time_millis() -> (r: i64) {
    std::time::SystemTime::now().duration_since(std::time::UNIX_EPOCH).map_or(0, |d| d.as_millis() as i64)
}

/// `fmt` as a borrowed text.
fn format_ref(fmt: &Option<String>) -> (r: Option<&str>)
    ensures
        opt_text(r) == opt_view(*fmt),
{
    match fmt {
        Some(f) => Some(f.as_str()),
        None => None,
    }
}

impl JsonSourceMapper {
    /// Auto-mapping, no parse errors ignored, no date format, inputs up to
    /// 10 MB and paths up to 32 parts.
    pub fn new() -> (r: Self)
        ensures
            r.mappings@.dom().len() == 0,
            !r.ignore_parse_errors,
            r.date_format is None,
            r.max_input_size == 10 * 1024 * 1024,
            r.max_nesting_depth == 32,
    {
        JsonSourceMapper {
            mappings: PropertyMap::new(),
            ignore_parse_errors: false,
            date_format: None,
            max_input_size: 10 * 1024 * 1024,
            max_nesting_depth: 32,
        }
    }

    /// Explicit mapping with the given attribute-to-JSONPath entries.
    pub fn with_mappings(mappings: PropertyMap) -> (r: Self)
        ensures
            r.mappings == mappings,
            !r.ignore_parse_errors,
            r.date_format is None,
            r.max_input_size == 10 * 1024 * 1024,
            r.max_nesting_depth == 32,
    {
        JsonSourceMapper {
            mappings,
            ignore_parse_errors: false,
            date_format: None,
            max_input_size: 10 * 1024 * 1024,
            max_nesting_depth: 32,
        }
    }

    pub fn set_ignore_parse_errors(&mut self, ignore: bool)
        ensures
            final(self).ignore_parse_errors == ignore,
            final(self).mappings == old(self).mappings,
            final(self).date_format == old(self).date_format,
            final(self).max_input_size == old(self).max_input_size,
            final(self).max_nesting_depth == old(self).max_nesting_depth,
    {
        self.ignore_parse_errors = ignore;
    }

    pub fn set_date_format(&mut self, format: Option<String>)
        ensures
            final(self).date_format == format,
            final(self).mappings == old(self).mappings,
            final(self).ignore_parse_errors == old(self).ignore_parse_errors,
            final(self).max_input_size == old(self).max_input_size,
            final(self).max_nesting_depth == old(self).max_nesting_depth,
    {
        self.date_format = format;
    }

    pub fn set_max_input_size(&mut self, max_size: usize)
        ensures
            final(self).max_input_size == max_size,
            final(self).mappings == old(self).mappings,
            final(self).ignore_parse_errors == old(self).ignore_parse_errors,
            final(self).date_format == old(self).date_format,
            final(self).max_nesting_depth == old(self).max_nesting_depth,
    {
        self.max_input_size = max_size;
    }

    pub fn set_max_nesting_depth(&mut self, max_depth: usize)
        ensures
            final(self).max_nesting_depth == max_depth,
            final(self).mappings == old(self).mappings,
            final(self).ignore_parse_errors == old(self).ignore_parse_errors,
            final(self).date_format == old(self).date_format,
            final(self).max_input_size == old(self).max_input_size,
    {
        self.max_nesting_depth = max_depth;
    }

    /// The attribute values of the root object's fields, in key order.
    fn auto_map(doc: &JsonValue, fmt: Option<&str>) -> (r: Result<Vec<AttributeValue>, EventFluxError>)
        ensures
            match auto_map_attrs(*doc, opt_text(fmt)) {
                Ok(d) => r matches Ok(v) && attr_views(v@) == d,
                Err(m) => r matches Err(e) && mapping_failure(e, m),
            },
    {
        match doc {
            JsonValue::Object(members, _) => {
                let ghost mem = members@;
                let mut keys: Vec<(String, usize)> = Vec::new();
                let mut i: usize = 0;
                while i < members.len()
                    invariant
                        i <= members@.len(),
                        keyed(keys@) == member_keys(members@).take(i as int),
                    decreases members@.len() - i,
                {
                    let name = owned(members[i].0.as_str());
                    let ghost kv = (name@, i);
                    let ghost before = keys@;
                    keys.push((name, i));
                    proof {
                        assert(keyed(keys@) =~= keyed(before).push(kv));
                        assert(member_keys(members@).take(i + 1) =~= member_keys(members@).take(i as int).push(member_keys(members@)[i as int]));
                    }
                    i = i + 1;
                }
                assert(member_keys(members@).take(members@.len() as int) =~= member_keys(members@));
                let sorted = sort_by_key_text(keys);
                let ghost order = sorted_by_key(member_keys(members@));
                let ghost items = auto_items(*doc, members@, opt_text(fmt));
                proof {
                    lemma_sorted_from(member_keys(members@));
                }
                let mut data: Vec<AttributeValue> = Vec::new();
                let mut j: usize = 0;
                assert(items.take(0) =~= Seq::<Result<AttrView, Seq<char>>>::empty());
                assert(attr_views(data@) =~= Seq::<AttrView>::empty());
                while j < sorted.len()
                    invariant
                        j <= sorted@.len(),
                        keyed(sorted@) == order,
                        order == sorted_by_key(member_keys(members@)),
                        order.len() == members@.len(),
                        forall|q: int| 0 <= q < order.len() ==> member_keys(members@).contains(#[trigger] order[q]),
                        items == auto_items(*doc, members@, opt_text(fmt)),
                        *doc matches JsonValue::Object(ms, _) && ms@ == members@,
                        collect_attrs(items.take(j as int)) == Ok::<Seq<AttrView>, Seq<char>>(attr_views(data@)),
                    decreases sorted@.len() - j,
                {
                    let key = chars_of(sorted[j].0.as_str());
                    proof {
                        assert(keyed(sorted@)[j as int] == order[j as int]);
                        let pos = choose|t: int| 0 <= t < member_keys(members@).len() && member_keys(members@)[t] == order[j as int];
                        crate::engine::stream::mapper::json_value::lemma_member_found(members@, key@, 0, pos);
                        assert(items[j as int] == match json_field(*doc, key@) {
                            Some(v) => json_attr(v, opt_text(fmt)),
                            None => Ok(AttrView::Null),
                        });
                        assert(items.take(j + 1).drop_last() =~= items.take(j as int));
                        assert(items.take(j + 1).last() == items[j as int]);
                    }
                    match field_of(doc, &key) {
                        Some(v) => {
                            match json_value_to_attribute(v, fmt) {
                                Ok(a) => {
                                    let ghost before = data@;
                                    data.push(a);
                                    proof {
                                        assert(attr_views(data@) =~= attr_views(before).push(a@));
                                    }
                                },
                                Err(e) => {
                                    proof {
                                        lemma_collect_failed(items, j + 1);
                                    }
                                    return Err(e);
                                },
                            }
                        },
                        None => {},
                    }
                    j = j + 1;
                }
                assert(items.take(j as int) =~= items);
                Ok(data)
            },
            _ => Err(mapping_failed(owned("JSON root must be an object for auto-mapping"))),
        }
    }

    /// The attribute values the JSONPath mappings select, in attribute-name order.
    fn extract_with_mappings(&self, doc: &JsonValue, fmt: Option<&str>) -> (r: Result<Vec<AttributeValue>, EventFluxError>)
        ensures
            match explicit_items_attrs(*doc, *self, opt_text(fmt)) {
                Ok(d) => r matches Ok(v) && attr_views(v@) == d,
                Err(m) => r matches Err(e) && mapping_failure(e, m),
            },
    {
        let entries = self.mappings.entries();
        let ghost pairs = self.mappings.pairs();
        let mut keys: Vec<(String, usize)> = Vec::new();
        let mut i: usize = 0;
        while i < entries.len()
            invariant
                i <= entries@.len(),
                pair_views(entries@) == pairs,
                keyed(keys@) == mapping_keys(pairs).take(i as int),
            decreases entries@.len() - i,
        {
            let name = owned(entries[i].0.as_str());
            let ghost kv = (name@, i);
            let ghost before = keys@;
            keys.push((name, i));
            proof {
                assert(pair_views(entries@)[i as int] == (entries@[i as int].0@, entries@[i as int].1@));
                assert(keyed(keys@) =~= keyed(before).push(kv));
                assert(mapping_keys(pairs).take(i + 1) =~= mapping_keys(pairs).take(i as int).push(mapping_keys(pairs)[i as int]));
            }
            i = i + 1;
        }
        assert(mapping_keys(pairs).take(entries@.len() as int) =~= mapping_keys(pairs));
        let sorted = sort_by_key_text(keys);
        let ghost order = sorted_by_key(mapping_keys(pairs));
        let ghost items = explicit_items(*doc, pairs, opt_text(fmt), self.max_nesting_depth as int);
        proof {
            lemma_sorted_from(mapping_keys(pairs));
        }
        let mut data: Vec<AttributeValue> = Vec::new();
        let mut j: usize = 0;
        assert(items.take(0) =~= Seq::<Result<AttrView, Seq<char>>>::empty());
        assert(attr_views(data@) =~= Seq::<AttrView>::empty());
        while j < sorted.len()
            invariant
                j <= sorted@.len(),
                pairs == self.mappings.pairs(),
                pair_views(entries@) == pairs,
                keyed(sorted@) == order,
                order == sorted_by_key(mapping_keys(pairs)),
                order.len() == pairs.len(),
                forall|q: int| 0 <= q < order.len() ==> mapping_keys(pairs).contains(#[trigger] order[q]),
                items == explicit_items(*doc, pairs, opt_text(fmt), self.max_nesting_depth as int),
                collect_attrs(items.take(j as int)) == Ok::<Seq<AttrView>, Seq<char>>(attr_views(data@)),
            decreases sorted@.len() - j,
        {
            let idx = sorted[j].1;
            proof {
                assert(keyed(sorted@)[j as int] == order[j as int]);
                let pos = choose|t: int| 0 <= t < mapping_keys(pairs).len() && mapping_keys(pairs)[t] == order[j as int];
                assert(idx as int == pos);
                assert(pair_views(entries@)[idx as int] == (entries@[idx as int].0@, entries@[idx as int].1@));
                assert(items[j as int] == match json_path_lookup(*doc, pairs[idx as int].1, self.max_nesting_depth as int) {
                    Err(m) => Err(m),
                    Ok(v) => json_attr(v, opt_text(fmt)),
                });
                assert(items.take(j + 1).drop_last() =~= items.take(j as int));
                assert(items.take(j + 1).last() == items[j as int]);
            }
            match extract_json_path(doc, entries[idx].1.as_str(), self.max_nesting_depth) {
                Ok(v) => {
                    match json_value_to_attribute(v, fmt) {
                        Ok(a) => {
                            let ghost before = data@;
                            data.push(a);
                            proof {
                                assert(attr_views(data@) =~= attr_views(before).push(a@));
                            }
                        },
                        Err(e) => {
                            proof {
                                lemma_collect_failed(items, j + 1);
                            }
                            return Err(e);
                        },
                    }
                },
                Err(e) => {
                    proof {
                        lemma_collect_failed(items, j + 1);
                    }
                    return Err(e);
                },
            }
            j = j + 1;
        }
        assert(items.take(j as int) =~= items);
        Ok(data)
    }

    /// Maps one input at time `timestamp`: the size check, parsing, then
    /// auto-mapping or the explicit mappings.
    pub fn map_at(&self, input: &[u8], timestamp: i64) -> (r: Result<Vec<Event>, EventFluxError>)
        ensures
            events_match(r, json_source_outcome(*self, input@), timestamp),
    {
        if input.len() > self.max_input_size {
            let a = usize_to_string(input.len());
            let b = usize_to_string(self.max_input_size);
            let m = concat("Input size ", a.as_str());
            let m = concat(m.as_str(), " bytes exceeds maximum allowed ");
            let m = concat(m.as_str(), b.as_str());
            return Err(mapping_failed(concat(m.as_str(), " bytes")));
        }
        let doc = match parse_json(input) {
            Ok(v) => v,
            Err(e) => {
                if self.ignore_parse_errors {
                    return Ok(Vec::new());
                } else {
                    return Err(mapping_failed(concat("JSON parse error: ", e.as_str())));
                }
            },
        };
        let fmt = format_ref(&self.date_format);
        let data = if self.mappings.is_empty() {
            Self::auto_map(&doc, fmt)
        } else {
            self.extract_with_mappings(&doc, fmt)
        };
        match data {
            Ok(d) => {
                let mut events: Vec<Event> = Vec::new();
                events.push(Event::new_with_data(timestamp, d));
                Ok(events)
            },
            Err(e) => Err(e),
        }
    }
}

impl SourceMapper for JsonSourceMapper {
    open spec fn outcome(&self, input: &[u8]) -> Option<JsonMapOutcome> {
        Some(json_source_outcome(*self, input@))
    }

    open spec fn csv_reading(&self) -> Option<CsvSourceMapper> {
        None
    }

    /// `map_at` with the current time.
    fn map(&self, input: &[u8]) -> (r: Result<Vec<Event>, EventFluxError>)
        ensures
            exists|t: i64| events_match(r, json_source_outcome(*self, input@), t),
    {
        let now = current_time_millis();
        self.map_at(input, now)
    }
}

/// The placeholder that stands for the `i`-th attribute: `{{field_i}}`.
pub open spec fn field_placeholder(i: nat) -> Seq<char> {
    seq!['{', '{', 'f', 'i', 'e', 'l', 'd', '_'] + int_text(i as int) + seq!['}', '}']
}

/// The placeholder that stands for the event's timestamp: `{{_timestamp}}`.
pub open spec fn timestamp_placeholder() -> Seq<char> {
    seq!['{', '{', '_', 't', 'i', 'm', 'e', 's', 't', 'a', 'm', 'p', '}', '}']
}

/// `text` after the placeholders of the first `n` attributes were replaced,
/// in turn, by their texts.
pub open spec fn fill_fields(text: Seq<char>, texts: Seq<Seq<char>>, n: nat) -> Seq<char>
    decreases n,
{
    if n == 0 {
        text
    } else {
        replaced(fill_fields(text, texts, (n - 1) as nat), field_placeholder((n - 1) as nat), texts[n - 1])
    }
}

/// What a template renders to for an event with the given timestamp and
/// attribute texts: the timestamp placeholder first, then each field's.
pub open spec fn rendered(template: Seq<char>, timestamp: int, texts: Seq<Seq<char>>) -> Seq<char> {
    fill_fields(replaced(template, timestamp_placeholder(), int_text(timestamp)), texts, texts.len())
}

/// Fills a template: `{{_timestamp}}` with the event's timestamp and
/// `{{field_N}}` with the text of its `N`-th attribute value, given in
/// `value_texts` (how a value is written as text is its caller's part:
/// floating-point values are written outside this library).
pub fn render_template(template: &str, timestamp: i64, value_texts: &Vec<String>) -> (r: Result<String, EventFluxError>)
    ensures
        r matches Ok(s) && s@ == rendered(template@, timestamp as int, string_views(value_texts@)),
{
    let ghost texts = string_views(value_texts@);
    let ts_text = i64_to_string(timestamp);
    let placeholder = string_from_chars(&['{', '{', '_', 't', 'i', 'm', 'e', 's', 't', 'a', 'm', 'p', '}', '}']);
    proof {
        assert(placeholder@ =~= timestamp_placeholder());
    }
    let mut result = replace_str(template, placeholder.as_str(), ts_text.as_str());
    let mut idx: usize = 0;
    while idx < value_texts.len()
        invariant
            idx <= value_texts@.len(),
            texts == string_views(value_texts@),
            result@ == fill_fields(replaced(template@, timestamp_placeholder(), int_text(timestamp as int)), texts, idx as nat),
        decreases value_texts@.len() - idx,
    {
        let head = concat("{{field_", usize_to_string(idx).as_str());
        let field = concat(head.as_str(), "}}");
        proof {
            reveal_strlit("{{field_");
            reveal_strlit("}}");
            assert(field@ =~= field_placeholder(idx as nat));
        }
        result = replace_str(result.as_str(), field.as_str(), value_texts[idx].as_str());
        idx = idx + 1;
    }
    Ok(result)
}


/// Writes events as JSON: a template with `{{field_N}}` and `{{_timestamp}}`
/// placeholders, or one JSON object per event.
pub struct JsonSinkMapper {
    pub template: Option<String>,
    pub pretty_print: bool,
}

impl JsonSinkMapper {
    pub fn new() -> (r: Self)
        ensures
            r.template is None,
            !r.pretty_print,
    {
        JsonSinkMapper { template: None, pretty_print: false }
    }

    pub fn with_template(template: String) -> (r: Self)
        ensures
            r.template == Some(template),
            !r.pretty_print,
    {
        JsonSinkMapper { template: Some(template), pretty_print: false }
    }

    pub fn set_pretty_print(&mut self, pretty: bool)
        ensures
            final(self).pretty_print == pretty,
            final(self).template == old(self).template,
    {
        self.pretty_print = pretty;
    }
}

/// The text of a value in a rendered template, for every kind but the
/// floating-point ones: a string as it is, integers in decimal, `true` or
/// `false`, and `null`.
pub open spec fn value_text_spec(v: AttrView) -> Option<Seq<char>> {
    match v {
        AttrView::String(s) => Some(s),
        AttrView::Int(i) => Some(int_text(i as int)),
        AttrView::Long(l) => Some(int_text(l as int)),
        AttrView::Bool(b) => Some(if b { "true"@ } else { "false"@ }),
        AttrView::Null => Some("null"@),
        AttrView::Float(_) | AttrView::Double(_) => None,
    }
}

/// `value_text_spec` of a value (floating-point values are written by the
/// application).
pub fn value_text(v: &AttributeValue) -> (r: Option<String>)
    ensures
        match r {
            Some(t) => value_text_spec(v@) == Some(t@),
            None => value_text_spec(v@) is None,
        },
{
    match v {
        AttributeValue::String(s) => Some(owned(s.as_str())),
        AttributeValue::Int(i) => Some(i32_to_string(*i)),
        AttributeValue::Long(l) => Some(i64_to_string(*l)),
        AttributeValue::Bool(b) => Some(if *b { owned("true") } else { owned("false") }),
        AttributeValue::Null => Some(owned("null")),
        AttributeValue::Float(_) | AttributeValue::Double(_) => None,
    }
}

} // verus!
