//! Reading events from CSV text: one event per non-empty line, one
//! attribute per column (or per mapped column), values kept as text.

use vstd::prelude::*;
use crate::engine::event::{AttributeValue, AttrView, Event, attr_views};
use crate::engine::exception::EventFluxError;
use crate::engine::extension::example_factories::non_empty;
use crate::engine::stream::input::mapper::SourceMapper;
use crate::engine::stream::mapper::json_mapper::{JsonMapOutcome, current_time_millis};
use crate::engine::stream::mapper::json_value::{mapping_failure, mapping_failed};
use crate::property_map::{string_views, lemma_string_views_push};
use crate::text::{chars_of, owned, split_char, split_spec};

verus! {

/// `std::str::from_utf8`: the text that `bytes` encode, when they are valid
/// UTF-8.
#[verifier::external_body]
fn utf8_text(bytes: &[u8]) -> (r: Option<String>)
    ensures
        r is Some <==> vstd::utf8::valid_utf8(bytes@),
        r matches Some(s) ==> s@ == vstd::utf8::decode_utf8(bytes@),
{
    std::str::from_utf8(bytes).ok().map(|s| s.to_string())
}

/// The views of `(attribute, column)` mappings.
pub open spec fn column_views(m: Seq<(String, usize)>) -> Seq<(Seq<char>, usize)> {
    m.map_values(|e: (String, usize)| (e.0@, e.1))
}

/// The records of a CSV text: its non-empty lines, without the first one
/// when the text has a header.
pub open spec fn csv_records(text: Seq<char>, has_header: bool) -> Seq<Seq<char>> {
    let lines = non_empty(split_spec(text, '\n'));
    if has_header && lines.len() > 0 { lines.drop_first() } else { lines }
}

/// The attribute values of a record's fields: every field as text, or, with
/// mappings, the field at each mapped column (`NULL` past the last field).
pub open spec fn csv_values(mappings: Seq<(Seq<char>, usize)>, fields: Seq<Seq<char>>) -> Seq<AttrView> {
    if mappings.len() == 0 {
        fields.map_values(|f: Seq<char>| AttrView::String(f))
    } else {
        mappings.map_values(|m: (Seq<char>, usize)| if (m.1 as int) < fields.len() {
            AttrView::String(fields[m.1 as int])
        } else {
            AttrView::Null
        })
    }
}

/// Reads events from CSV text.
pub struct CsvSourceMapper {
    /// Attribute name and column index, in order; empty means every column.
    pub mappings: Vec<(String, usize)>,
    pub delimiter: char,
    pub has_header: bool,
    /// Yield no events for input that is not UTF-8 instead of failing.
    pub ignore_parse_errors: bool,
}

/// The attribute values of each record that mapper `m` reads from `text`.
pub open spec fn csv_rows(m: CsvSourceMapper, text: Seq<char>) -> Seq<Seq<AttrView>> {
    csv_records(text, m.has_header).map_values(|l: Seq<char>| csv_values(column_views(m.mappings@), split_spec(l, m.delimiter)))
}

/// The message for input that is not UTF-8.
pub open spec fn csv_encoding_message() -> Seq<char> {
    "CSV input is not valid UTF-8"@
}

/// `events` are the rows, in order, each stamped with `timestamp`.
pub open spec fn events_are_rows(events: Seq<Event>, rows: Seq<Seq<AttrView>>, timestamp: i64) -> bool {
    &&& events.len() == rows.len()
    &&& forall|i: int| 0 <= i < rows.len() ==> (#[trigger] events[i]).timestamp == timestamp
        && attr_views(events[i].data@) == rows[i] && !events[i].is_expired
}

/// What mapper `m` makes of `input` at time `timestamp`.
pub open spec fn csv_map_result(m: CsvSourceMapper, input: Seq<u8>, r: Result<Vec<Event>, EventFluxError>, timestamp: i64) -> bool {
    if vstd::utf8::valid_utf8(input) {
        r matches Ok(ev) && events_are_rows(ev@, csv_rows(m, vstd::utf8::decode_utf8(input)), timestamp)
    } else if m.ignore_parse_errors {
        r matches Ok(ev) && ev@.len() == 0
    } else {
        r matches Err(e) && mapping_failure(e, csv_encoding_message())
    }
}

/// The non-empty pieces of `parts`, in order.
fn non_empty_strings(parts: Vec<String>) -> (r: Vec<String>)
    ensures
        string_views(r@) == non_empty(string_views(parts@)),
{
    let ghost pv = string_views(parts@);
    let mut out: Vec<String> = Vec::new();
    let mut i: usize = 0;
    proof {
        assert(string_views(out@) =~= Seq::<Seq<char>>::empty());
        assert(pv.take(0) =~= Seq::<Seq<char>>::empty());
    }
    while i < parts.len()
        invariant
            i <= parts@.len(),
            pv == string_views(parts@),
            string_views(out@) == non_empty(pv.take(i as int)),
        decreases parts@.len() - i,
    {
        proof {
            assert(pv.take(i + 1).drop_last() =~= pv.take(i as int));
            assert(pv.take(i + 1).last() == parts@[i as int]@);
        }
        let p = owned(parts[i].as_str());
        let p_len = chars_of(p.as_str()).len();
        if p_len > 0 {
            let ghost before = out@;
            proof {
                assert(p@.len() > 0);
            }
            out.push(p);
            proof {
                lemma_string_views_push(before, p);
            }
        } else {
            proof {
                assert(p@.len() == 0);
            }
        }
        i = i + 1;
    }
    proof {
        assert(pv.take(parts@.len() as int) =~= pv);
    }
    out
}

impl CsvSourceMapper {
    /// Every column, `,` as delimiter, no header, parse errors fail.
    pub fn new() -> (r: Self)
        ensures
            r.mappings@.len() == 0,
            r.delimiter == ',',
            !r.has_header,
            !r.ignore_parse_errors,
    {
        CsvSourceMapper { mappings: Vec::new(), delimiter: ',', has_header: false, ignore_parse_errors: false }
    }

    /// The mapped columns only, otherwise as `new`.
    pub fn with_mappings(mappings: Vec<(String, usize)>) -> (r: Self)
        ensures
            r.mappings@ == mappings@,
            r.delimiter == ',',
            !r.has_header,
            !r.ignore_parse_errors,
    {
        CsvSourceMapper { mappings, delimiter: ',', has_header: false, ignore_parse_errors: false }
    }

    pub fn set_delimiter(&mut self, delimiter: char)
        ensures
            *final(self) == (CsvSourceMapper { delimiter, ..*old(self) }),
    {
        self.delimiter = delimiter;
    }

    pub fn set_has_header(&mut self, has_header: bool)
        ensures
            *final(self) == (CsvSourceMapper { has_header, ..*old(self) }),
    {
        self.has_header = has_header;
    }

    pub fn set_ignore_parse_errors(&mut self, ignore: bool)
        ensures
            *final(self) == (CsvSourceMapper { ignore_parse_errors: ignore, ..*old(self) }),
    {
        self.ignore_parse_errors = ignore;
    }

    /// The attribute values of one record.
    fn record_values(&self, line: &str) -> (r: Vec<AttributeValue>)
        ensures
            attr_views(r@) == csv_values(column_views(self.mappings@), split_spec(line@, self.delimiter)),
    {
        let fields = split_char(line, self.delimiter);
        let ghost fv = string_views(fields@);
        let ghost target = csv_values(column_views(self.mappings@), fv);
        let mut r: Vec<AttributeValue> = Vec::new();
        if self.mappings.len() == 0 {
            let mut i: usize = 0;
            while i < fields.len()
                invariant
                    i <= fields@.len(),
                    fv == string_views(fields@),
                    self.mappings@.len() == 0,
                    target == csv_values(column_views(self.mappings@), fv),
                    attr_views(r@) == target.take(i as int),
                decreases fields@.len() - i,
            {
                let v = AttributeValue::String(owned(fields[i].as_str()));
                let ghost before = r@;
                r.push(v);
                proof {
                    assert(attr_views(r@) =~= attr_views(before).push(v@));
                    assert(target.take(i + 1) =~= target.take(i as int).push(target[i as int]));
                }
                i = i + 1;
            }
            proof {
                assert(target.take(fields@.len() as int) =~= target);
            }
        } else {
            let mut i: usize = 0;
            while i < self.mappings.len()
                invariant
                    i <= self.mappings@.len(),
                    self.mappings@.len() > 0,
                    fv == string_views(fields@),
                    target == csv_values(column_views(self.mappings@), fv),
                    attr_views(r@) == target.take(i as int),
                decreases self.mappings@.len() - i,
            {
                let col = self.mappings[i].1;
                let v = if col < fields.len() {
                    AttributeValue::String(owned(fields[col].as_str()))
                } else {
                    AttributeValue::Null
                };
                let ghost before = r@;
                r.push(v);
                proof {
                    assert(column_views(self.mappings@)[i as int].1 == col);
                    assert(attr_views(r@) =~= attr_views(before).push(v@));
                    assert(target.take(i + 1) =~= target.take(i as int).push(target[i as int]));
                }
                i = i + 1;
            }
            proof {
                assert(target.take(self.mappings@.len() as int) =~= target);
            }
        }
        r
    }

    /// The events read from `input` at time `timestamp` (see `csv_map_result`).
    pub fn map_at(&self, input: &[u8], timestamp: i64) -> (r: Result<Vec<Event>, EventFluxError>)
        ensures
            csv_map_result(*self, input@, r, timestamp),
    {
        let text = match utf8_text(input) {
            Some(t) => t,
            None => {
                if self.ignore_parse_errors {
                    return Ok(Vec::new());
                }
                return Err(mapping_failed(owned("CSV input is not valid UTF-8")));
            },
        };
        let lines = non_empty_strings(split_char(text.as_str(), '\n'));
        let ghost lv = string_views(lines@);
        let start: usize = if self.has_header && lines.len() > 0 { 1 } else { 0 };
        let ghost records = csv_records(text@, self.has_header);
        proof {
            assert(records =~= lv.skip(start as int));
        }
        let ghost rows = csv_rows(*self, text@);
        let mut events: Vec<Event> = Vec::new();
        let mut k: usize = start;
        while k < lines.len()
            invariant
                start <= k <= lines@.len(),
                lv == string_views(lines@),
                records == lv.skip(start as int),
                rows == records.map_values(|l: Seq<char>| csv_values(column_views(self.mappings@), split_spec(l, self.delimiter))),
                events@.len() == k - start,
                forall|i: int| 0 <= i < k - start ==> (#[trigger] events@[i]).timestamp == timestamp
                    && attr_views(events@[i].data@) == rows[i] && !events@[i].is_expired,
            decreases lines@.len() - k,
        {
            let values = self.record_values(lines[k].as_str());
            proof {
                assert(records[k - start] == lines@[k as int]@);
            }
            events.push(Event::new_with_data(timestamp, values));
            k = k + 1;
        }
        proof {
            assert(events_are_rows(events@, rows, timestamp));
        }
        Ok(events)
    }
}

impl SourceMapper for CsvSourceMapper {
    /// A CSV text may hold many events, which a single-document outcome
    /// cannot describe.
    open spec fn outcome(&self, input: &[u8]) -> Option<JsonMapOutcome> {
        None
    }

    /// It reads CSV with its own settings.
    open spec fn csv_reading(&self) -> Option<CsvSourceMapper> {
        Some(*self)
    }

    /// `map_at` with the current time.
    fn map(&self, input: &[u8]) -> (r: Result<Vec<Event>, EventFluxError>)
        ensures
            exists|t: i64| csv_map_result(*self, input@, r, t),
    {
        let now = current_time_millis();
        let r = self.map_at(input, now);
        proof {
            assert(csv_map_result(self.csv_reading()->0, input@, r, now));
        }
        r
    }
}

} // verus!
