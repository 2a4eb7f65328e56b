//! Extraction of the `WINDOW('type', params)` streaming extension from SQL
//! text: the clause is located, its window specification parsed, and the
//! clause removed from the SQL.

use vstd::prelude::*;
use crate::number::{all_digits, digits_value, is_digit, lemma_digits_value_nonneg, parse_i64, parse_i64_spec};
use crate::property_map::string_views;
use crate::sql_compiler::error::PreprocessorError;
use crate::text::{
    concat, contains_char, has_prefix, owned, split_char, split_spec, split_whitespace, starts_with, str_eq, trim,
    trim_matches_char, trim_spec, trim_char_spec, to_lowercase, to_uppercase, to_upper_text, upper_text, lowercase, uppercase, words_spec,
    replace_str, replaced, ascii_uppercase, ascii_lowercase, ascii_upper, ascii_lower, is_ascii_text, is_ws,
    trim_start_spec, trim_end_spec, trim_start_char, trim_end_char, lemma_three_words,
};

verus! {

/// Units of window durations.
#[derive(Debug, Clone, Copy, PartialEq, Eq, Structural)]
pub enum TimeUnit {
    Milliseconds,
    Seconds,
    Minutes,
    Hours,
}

/// A window specification.
#[derive(Debug, Clone, PartialEq)]
pub enum WindowSpec {
    Tumbling { value: i64, unit: TimeUnit },
    Sliding { window_value: i64, window_unit: TimeUnit, slide_value: i64, slide_unit: TimeUnit },
    Length { size: i64 },
    Session { value: i64, unit: TimeUnit },
    Time { value: i64, unit: TimeUnit },
    TimeBatch { value: i64, unit: TimeUnit },
    LengthBatch { size: i64 },
    ExternalTime { timestamp_field: String, value: i64, unit: TimeUnit },
    ExternalTimeBatch { timestamp_field: String, value: i64, unit: TimeUnit },
}

/// The window clause as found in the text, and what it specifies.
#[derive(Debug, Clone)]
pub struct WindowClauseText {
    pub full_match: String,
    pub window_type: String,
    pub parameters: String,
    pub spec: WindowSpec,
}

/// SQL with the window clause taken out.
#[derive(Debug, Clone)]
pub struct PreprocessedSql {
    pub standard_sql: String,
    pub window_clause: Option<WindowClauseText>,
}

/// What the `regex` crate finds for `pattern` in `text`: the whole first
/// match and its first two capture groups, or `None` where the pattern is
/// invalid, nothing matches or one of the two groups took no part.
pub uninterp spec fn regex_first_captures(pattern: Seq<char>, text: Seq<char>) -> Option<(Seq<char>, Seq<char>, Seq<char>)>;

/// `Regex::new(pattern)` and `captures(text)`: the whole first match and
/// groups 1 and 2; the contract names the outcome.
#[verifier::external_body]
fn regex_captures(pattern: &str, text: &str) -> (r: Option<(String, String, String)>)
    ensures
        r matches Some(t) ==> regex_first_captures(pattern@, text@) == Some((t.0@, t.1@, t.2@)),
        r is None ==> regex_first_captures(pattern@, text@) is None,
{
    let re = regex::Regex::new(pattern).ok()?;
    let caps = re.captures(text)?;
    let full = caps.get(0)?.as_str().to_string();
    let first = caps.get(1)?.as_str().to_string();
    let second = caps.get(2)?.as_str().to_string();
    Some((full, first, second))
}

/// The window clause: `WINDOW` in any case as a word, a parenthesised word
/// type in quotes, a comma, and the shortest parameter text up to a closing
/// parenthesis.
pub open spec fn window_pattern() -> Seq<char> {
    r#"(?i)\bWINDOW\s*\(\s*'(\w+)'\s*,\s*(.+?)\s*\)"#@
}

/// The first window clause in `sql`: the whole clause, the window type and
/// the parameter text.
pub open spec fn window_match(sql: Seq<char>) -> Option<(Seq<char>, Seq<char>, Seq<char>)> {
    regex_first_captures(window_pattern(), sql)
}

/// The time unit an upper-cased unit name denotes.
pub open spec fn unit_of(u: Seq<char>) -> Option<TimeUnit> {
    if u == "MILLISECOND"@ || u == "MILLISECONDS"@ {
        Some(TimeUnit::Milliseconds)
    } else if u == "SECOND"@ || u == "SECONDS"@ {
        Some(TimeUnit::Seconds)
    } else if u == "MINUTE"@ || u == "MINUTES"@ {
        Some(TimeUnit::Minutes)
    } else if u == "HOUR"@ || u == "HOURS"@ {
        Some(TimeUnit::Hours)
    } else {
        None
    }
}

/// A duration: `INTERVAL 'n' UNIT` (quotes optional), or a bare number of
/// milliseconds.
pub open spec fn time_param_spec(param: Seq<char>) -> Option<(int, TimeUnit)> {
    let p = trim_spec(param);
    let w = words_spec(p);
    if has_prefix(upper_text(p), "INTERVAL"@) && w.len() >= 3 {
        match parse_i64_spec(trim_char_spec(trim_char_spec(w[1], '\''), '"')) {
            Some(n) => match unit_of(upper_text(w[2])) {
                Some(u) => Some((n, u)),
                None => None,
            },
            None => None,
        }
    } else {
        match parse_i64_spec(p) {
            Some(n) => Some((n, TimeUnit::Milliseconds)),
            None => None,
        }
    }
}

/// The duration text `k 'd' u`, where `k` is the keyword `INTERVAL`.
pub open spec fn interval_text(k: Seq<char>, d: Seq<char>, u: Seq<char>) -> Seq<char> {
    k + seq![' ', '\''] + d + seq!['\'', ' '] + u
}

/// Upper-casing an ASCII character gives an ASCII character that is
/// whitespace exactly when the first one is, and upper-casing again changes
/// nothing; so does upper-casing its lower case.
proof fn lemma_ascii_upper_char(c: char)
    requires
        (c as u32) < 128,
    ensures
        (ascii_upper(c) as u32) < 128,
        is_ws(ascii_upper(c)) == is_ws(c),
        ascii_upper(ascii_upper(c)) == ascii_upper(c),
        ascii_upper(ascii_lower(c)) == ascii_upper(c),
        (ascii_lower(c) as u32) < 128,
        is_ws(ascii_lower(c)) == is_ws(c),
{
    if 'a' <= c <= 'z' {
        assert((ascii_upper(c) as u32) == (c as u32) - 32);
    }
    if 'A' <= c <= 'Z' {
        assert((ascii_lower(c) as u32) == (c as u32) + 32);
        assert((ascii_upper(ascii_lower(c)) as u32) == (c as u32));
    }
}

/// The meaning of `k 'd' u` for the keyword `INTERVAL` in any case, a number
/// `d` and a unit word `u` of ASCII characters: `d` in the unit that `u`
/// names, read without regard to letter case.
proof fn lemma_interval_meaning(k: Seq<char>, d: Seq<char>, u: Seq<char>)
    requires
        is_ascii_text(k),
        ascii_uppercase(k) == "INTERVAL"@,
        d.len() > 0,
        all_digits(d),
        digits_value(d) <= i64::MAX,
        u.len() > 0,
        is_ascii_text(u),
        forall|i: int| 0 <= i < u.len() ==> !is_ws(#[trigger] u[i]),
    ensures
        time_param_spec(interval_text(k, d, u)) == (match unit_of(ascii_uppercase(u)) {
            Some(t) => Some((digits_value(d), t)),
            None => None,
        }),
{
    reveal_strlit("INTERVAL");
    let kw = k;
    let w1 = seq!['\''] + d + seq!['\''];
    let txt = interval_text(k, d, u);
    assert(txt =~= kw + seq![' '] + w1 + seq![' '] + u);
    assert(k.len() == 8) by {
        assert(ascii_uppercase(k).len() == k.len());
    }
    assert forall|i: int| 0 <= i < kw.len() implies !is_ws(#[trigger] kw[i]) by {
        lemma_ascii_upper_char(k[i]);
        assert(ascii_uppercase(k)[i] == ascii_upper(k[i]));
    }
    assert forall|i: int| 0 <= i < w1.len() implies !is_ws(#[trigger] w1[i]) by {
        if 0 < i < w1.len() - 1 {
            assert(w1[i] == d[i - 1]);
            assert(is_digit(d[i - 1]));
        }
    }
    lemma_three_words(kw, w1, u);
    // the text is already trimmed
    assert(!is_ws(txt[0]));
    assert(txt.last() == u.last());
    assert(trim_start_spec(txt) == txt);
    assert(trim_end_spec(txt) == txt);
    assert(trim_spec(txt) == txt);
    // it is ASCII, and begins with INTERVAL in upper case
    assert forall|i: int| 0 <= i < txt.len() implies (txt[i] as u32) < 128 by {
        if i < 8 {
            assert(txt[i] == k[i]);
        } else if 10 <= i < 10 + d.len() {
            assert(txt[i] == d[i - 10]);
            assert(is_digit(d[i - 10]));
        } else if i >= 12 + d.len() {
            assert(txt[i] == u[i - 12 - d.len()]);
        }
    }
    assert(is_ascii_text(txt));
    assert forall|i: int| 0 <= i < 8 implies #[trigger] ascii_uppercase(txt)[i] == ascii_uppercase(k)[i] by {
        assert(txt[i] == k[i]);
    }
    assert(ascii_uppercase(txt).subrange(0, 8) =~= "INTERVAL"@);
    assert(has_prefix(upper_text(txt), "INTERVAL"@));
    // the number
    assert(d[0] != '\'' && d.last() != '\'') by {
        assert(is_digit(d[0]));
        assert(is_digit(d[d.len() - 1]));
    }
    assert(w1.drop_first() =~= d + seq!['\'']);
    assert(trim_start_char(d + seq!['\''], '\'') == d + seq!['\''] ) by {
        assert((d + seq!['\''])[0] == d[0]);
    }
    assert((d + seq!['\'']).drop_last() =~= d);
    assert(trim_start_char(w1, '\'') == d + seq!['\'']);
    assert((d + seq!['\'']).last() == '\'');
    assert(trim_end_char(d, '\'') == d);
    assert(trim_end_char(d + seq!['\''], '\'') == trim_end_char(d, '\''));
    assert(trim_end_char(d + seq!['\''], '\'') == d);
    assert(trim_char_spec(w1, '\'') == d);
    assert(is_digit(d[0]) && is_digit(d[d.len() - 1]));
    assert(trim_char_spec(d, '"') == d);
    lemma_digits_value_nonneg(d);
    assert(parse_i64_spec(d) == Some(digits_value(d)));
    assert(upper_text(u) == ascii_uppercase(u));
}

/// A duration is read without regard to letter case: for the keyword
/// `INTERVAL` written in any case, a number `d` and an ASCII unit word `u`,
/// `INTERVAL 'd' u` means `d` in the unit that `u` upper-cased names
/// (`second`, `Second` and `SECOND` are seconds), and writing the unit word in
/// upper or in lower case changes nothing.
pub proof fn law_interval_unit_ignores_case(k: Seq<char>, d: Seq<char>, u: Seq<char>)
    requires
        is_ascii_text(k),
        ascii_uppercase(k) == "INTERVAL"@,
        d.len() > 0,
        all_digits(d),
        digits_value(d) <= i64::MAX,
        u.len() > 0,
        is_ascii_text(u),
        forall|i: int| 0 <= i < u.len() ==> !is_ws(#[trigger] u[i]),
    ensures
        time_param_spec(interval_text(k, d, u)) == (match unit_of(ascii_uppercase(u)) {
            Some(t) => Some((digits_value(d), t)),
            None => None,
        }),
        time_param_spec(interval_text(k, d, u)) == time_param_spec(interval_text(k, d, ascii_uppercase(u))),
        time_param_spec(interval_text(k, d, u)) == time_param_spec(interval_text(k, d, ascii_lowercase(u))),
{
    let up = ascii_uppercase(u);
    let low = ascii_lowercase(u);
    assert forall|i: int| 0 <= i < u.len() implies #[trigger] up[i] == ascii_upper(u[i]) && low[i] == ascii_lower(u[i])
        && (up[i] as u32) < 128 && (low[i] as u32) < 128 && !is_ws(up[i]) && !is_ws(low[i])
        && ascii_upper(up[i]) == up[i] && ascii_upper(low[i]) == up[i] by {
        lemma_ascii_upper_char(u[i]);
    }
    assert(ascii_uppercase(up) =~= up);
    assert(ascii_uppercase(low) =~= up);
    lemma_interval_meaning(k, d, u);
    lemma_interval_meaning(k, d, up);
    lemma_interval_meaning(k, d, low);
}

/// The value after `=` in `name=value`, trimmed (empty when there is none).
pub open spec fn after_eq(part: Seq<char>) -> Seq<char> {
    let pieces = split_spec(part, '=');
    trim_spec(if pieces.len() >= 2 { pieces[1] } else { Seq::empty() })
}

/// The one parameter of a window: the value of `name=value`, or the whole text.
pub open spec fn single_param(params: Seq<char>) -> Seq<char> {
    let pieces = split_spec(params, '=');
    if params.contains('=') && pieces.len() >= 2 { trim_spec(pieces[1]) } else { trim_spec(params) }
}

/// The comma-separated parameters, trimmed.
pub open spec fn param_parts(params: Seq<char>) -> Seq<Seq<char>> {
    split_spec(params, ',').map_values(|p: Seq<char>| trim_spec(p))
}

/// The value of the last part that starts with `key` and not with `skip`.
pub open spec fn last_value(parts: Seq<Seq<char>>, key: Seq<char>, skip: Option<Seq<char>>) -> Option<Seq<char>>
    decreases parts.len(),
{
    if parts.len() == 0 {
        None
    } else {
        let p = parts.last();
        let skipped = match skip {
            Some(k) => has_prefix(p, k),
            None => false,
        };
        if !skipped && has_prefix(p, key) {
            Some(after_eq(p))
        } else {
            last_value(parts.drop_last(), key, skip)
        }
    }
}

/// The two durations of a sliding window: `size=..., slide=...` or positional.
pub open spec fn sliding_params(params: Seq<char>) -> Option<(Seq<char>, Seq<char>)> {
    let parts = param_parts(params);
    if parts.len() == 0 {
        None
    } else if params.contains('=') {
        match (last_value(parts, "size"@, None), last_value(parts, "slide"@, Some("size"@))) {
            (Some(a), Some(b)) => Some((a, b)),
            _ => None,
        }
    } else if parts.len() < 2 {
        None
    } else {
        Some((parts[0], parts[1]))
    }
}

/// The timestamp field and duration of an external-time window:
/// `timestamp=..., duration=...` or positional.
pub open spec fn external_params(params: Seq<char>) -> Option<(Seq<char>, Seq<char>)> {
    let parts = param_parts(params);
    if parts.len() == 0 {
        None
    } else if params.contains('=') {
        match (last_value(parts, "timestamp"@, None), last_value(parts, "duration"@, Some("timestamp"@))) {
            (Some(a), Some(b)) => Some((a, b)),
            _ => None,
        }
    } else if parts.len() < 2 {
        None
    } else {
        Some((parts[0], parts[1]))
    }
}

/// `w` is the window of type `t` (lowercased) that `params` specify.
pub open spec fn window_spec_is(w: WindowSpec, t: Seq<char>, params: Seq<char>) -> bool {
    let tp = time_param_spec(single_param(params));
    if t == "tumbling"@ {
        w matches WindowSpec::Tumbling { value, unit } && tp == Some((value as int, unit))
    } else if t == "sliding"@ || t == "hop"@ {
        w matches WindowSpec::Sliding { window_value, window_unit, slide_value, slide_unit }
            && sliding_params(params) matches Some(p)
            && time_param_spec(p.0) == Some((window_value as int, window_unit))
            && time_param_spec(p.1) == Some((slide_value as int, slide_unit))
    } else if t == "length"@ {
        w matches WindowSpec::Length { size } && parse_i64_spec(trim_spec(single_param(params))) == Some(size as int)
    } else if t == "session"@ {
        w matches WindowSpec::Session { value, unit } && tp == Some((value as int, unit))
    } else if t == "time"@ {
        w matches WindowSpec::Time { value, unit } && tp == Some((value as int, unit))
    } else if t == "timebatch"@ {
        w matches WindowSpec::TimeBatch { value, unit } && tp == Some((value as int, unit))
    } else if t == "lengthbatch"@ {
        w matches WindowSpec::LengthBatch { size } && parse_i64_spec(trim_spec(single_param(params))) == Some(size as int)
    } else if t == "externaltime"@ {
        w matches WindowSpec::ExternalTime { timestamp_field, value, unit }
            && external_params(params) matches Some(p)
            && timestamp_field@ == p.0 && time_param_spec(p.1) == Some((value as int, unit))
    } else if t == "externaltimebatch"@ {
        w matches WindowSpec::ExternalTimeBatch { timestamp_field, value, unit }
            && external_params(params) matches Some(p)
            && timestamp_field@ == p.0 && time_param_spec(p.1) == Some((value as int, unit))
    } else {
        false
    }
}

/// Whether a window of type `t` (lowercased) with this parameter text is valid.
pub open spec fn window_spec_ok(t: Seq<char>, params: Seq<char>) -> bool {
    let tp = time_param_spec(single_param(params));
    let ip = parse_i64_spec(trim_spec(single_param(params)));
    if t == "tumbling"@ {
        tp is Some
    } else if t == "sliding"@ || t == "hop"@ {
        sliding_params(params) matches Some(p) && time_param_spec(p.0) is Some && time_param_spec(p.1) is Some
    } else if t == "length"@ {
        ip is Some
    } else if t == "session"@ || t == "time"@ || t == "timebatch"@ {
        tp is Some
    } else if t == "lengthbatch"@ {
        ip is Some
    } else if t == "externaltime"@ || t == "externaltimebatch"@ {
        external_params(params) matches Some(p) && time_param_spec(p.1) is Some
    } else {
        false
    }
}

/// The window type is one of those the preprocessor knows.
pub open spec fn known_window_type(t: Seq<char>) -> bool {
    t == "tumbling"@ || t == "sliding"@ || t == "hop"@ || t == "length"@ || t == "session"@ || t == "time"@
        || t == "timebatch"@ || t == "lengthbatch"@ || t == "externaltime"@ || t == "externaltimebatch"@
}

/// The message for a duration that cannot be read.
pub open spec fn time_param_message(param: Seq<char>) -> Seq<char> {
    let p = trim_spec(param);
    let w = words_spec(p);
    if has_prefix(upper_text(p), "INTERVAL"@) && w.len() >= 3 {
        let v = trim_char_spec(trim_char_spec(w[1], '\''), '"');
        if parse_i64_spec(v) is None {
            "Invalid number: "@ + v
        } else {
            "Unknown time unit: "@ + upper_text(w[2])
        }
    } else {
        "Cannot parse time: "@ + p
    }
}

/// Why the two parameters of a window cannot be found, if they cannot:
/// none at all, a missing named one, or fewer than two positional ones.
pub open spec fn pair_params_message(
    params: Seq<char>,
    first: Seq<char>,
    second: Seq<char>,
    messages: (Seq<char>, Seq<char>, Seq<char>, Seq<char>),
) -> Option<Seq<char>> {
    let parts = param_parts(params);
    if parts.len() == 0 {
        Some(messages.0)
    } else if params.contains('=') {
        if last_value(parts, first, None) is None {
            Some(messages.1)
        } else if last_value(parts, second, Some(first)) is None {
            Some(messages.2)
        } else {
            None
        }
    } else if parts.len() < 2 {
        Some(messages.3)
    } else {
        None
    }
}

/// The message of an external-time window whose parameters cannot be read.
pub open spec fn external_message(params: Seq<char>, batch: bool) -> Seq<char> {
    let messages = if batch {
        ("externalTimeBatch window requires timestamp field and duration parameters"@,
            "Missing 'timestamp' parameter"@, "Missing 'duration' parameter"@,
            "externalTimeBatch window requires 2 parameters (timestamp, duration)"@)
    } else {
        ("externalTime window requires timestamp field and duration parameters"@,
            "Missing 'timestamp' parameter"@, "Missing 'duration' parameter"@,
            "externalTime window requires 2 parameters (timestamp, duration)"@)
    };
    match pair_params_message(params, "timestamp"@, "duration"@, messages) {
        Some(m) => m,
        None => time_param_message((external_params(params)->0).1),
    }
}

/// The message of a sliding window whose parameters cannot be read.
pub open spec fn sliding_message(params: Seq<char>) -> Seq<char> {
    let messages = ("SLIDING window requires size and slide parameters"@,
        "Missing 'size' parameter"@, "Missing 'slide' parameter"@,
        "SLIDING window requires 2 parameters (size, slide)"@);
    match pair_params_message(params, "size"@, "slide"@, messages) {
        Some(m) => m,
        None => {
            let p = sliding_params(params)->0;
            if time_param_spec(p.0) is None { time_param_message(p.0) } else { time_param_message(p.1) }
        },
    }
}

/// The message of a window of known type `t` whose parameters cannot be read.
pub open spec fn window_params_message(t: Seq<char>, params: Seq<char>) -> Seq<char> {
    if t == "tumbling"@ {
        time_param_message(single_param(params))
    } else if t == "sliding"@ || t == "hop"@ {
        sliding_message(params)
    } else if t == "length"@ {
        "Invalid integer: "@ + single_param(params)
    } else if t == "session"@ || t == "time"@ || t == "timebatch"@ {
        time_param_message(single_param(params))
    } else if t == "lengthbatch"@ {
        "Invalid integer: "@ + single_param(params)
    } else if t == "externaltime"@ {
        external_message(params, false)
    } else {
        external_message(params, true)
    }
}

fn invalid_params(message: String) -> (r: PreprocessorError)
    ensures
        r == PreprocessorError::InvalidWindowParams(message),
{
    PreprocessorError::InvalidWindowParams(message)
}

/// The value after `=` in `name=value`, trimmed (empty when there is none).
fn value_after_eq(part: &str) -> (r: String)
    ensures
        r@ == after_eq(part@),
{
    let pieces = split_char(part, '=');
    if pieces.len() >= 2 {
        proof {
            assert(string_views(pieces@)[1] == pieces@[1]@);
        }
        trim(pieces[1].as_str())
    } else {
        let e = String::new();
        proof {
            assert(e@ =~= Seq::<char>::empty());
            assert(trim_spec(Seq::<char>::empty()) == Seq::<char>::empty());
        }
        trim(e.as_str())
    }
}

/// The one parameter of a window: the value of `name=value`, or the whole text.
fn single_param_of(params: &str) -> (r: String)
    ensures
        r@ == single_param(params@),
{
    let has_eq = contains_char(params, '=');
    let pieces = split_char(params, '=');
    if has_eq && pieces.len() >= 2 {
        proof {
            assert(string_views(pieces@)[1] == pieces@[1]@);
        }
        trim(pieces[1].as_str())
    } else {
        trim(params)
    }
}

/// The comma-separated parameters, trimmed.
fn param_parts_of(params: &str) -> (r: Vec<String>)
    ensures
        string_views(r@) == param_parts(params@),
{
    let pieces = split_char(params, ',');
    let mut out: Vec<String> = Vec::new();
    let mut i: usize = 0;
    while i < pieces.len()
        invariant
            i <= pieces@.len(),
            string_views(pieces@) == split_spec(params@, ','),
            string_views(out@) == param_parts(params@).subrange(0, i as int),
        decreases pieces@.len() - i,
    {
        let t = trim(pieces[i].as_str());
        let ghost before = out@;
        out.push(t);
        proof {
            crate::property_map::lemma_string_views_push(before, t);
            assert(string_views(pieces@)[i as int] == pieces@[i as int]@);
            assert(param_parts(params@).subrange(0, i + 1) =~= param_parts(params@).subrange(0, i as int).push(t@));
        }
        i = i + 1;
    }
    proof {
        assert(param_parts(params@).subrange(0, i as int) =~= param_parts(params@));
    }
    out
}

/// The value of the last part that starts with `key` and not with `skip`.
fn last_value_of(parts: &Vec<String>, key: &str, skip: Option<&str>) -> (r: Option<String>)
    ensures
        r matches Some(v) ==> last_value(string_views(parts@), key@, match skip { Some(k) => Some(k@), None => None }) == Some(v@),
        r is None ==> last_value(string_views(parts@), key@, match skip { Some(k) => Some(k@), None => None }) is None,
{
    let ghost sk = match skip { Some(k) => Some(k@), None => None };
    let ghost pv = string_views(parts@);
    let mut found: Option<String> = None;
    let mut i: usize = 0;
    proof {
        assert(pv.subrange(0, 0) =~= Seq::<Seq<char>>::empty());
    }
    while i < parts.len()
        invariant
            i <= parts@.len(),
            pv == string_views(parts@),
            sk == (match skip { Some(k) => Some(k@), None => None }),
            found matches Some(v) ==> last_value(pv.subrange(0, i as int), key@, sk) == Some(v@),
            found is None ==> last_value(pv.subrange(0, i as int), key@, sk) is None,
        decreases parts@.len() - i,
    {
        let p = parts[i].as_str();
        let skipped = match skip {
            Some(k) => starts_with(p, k),
            None => false,
        };
        proof {
            let next = pv.subrange(0, i + 1);
            assert(next.drop_last() =~= pv.subrange(0, i as int));
            assert(next.last() == p@);
        }
        if !skipped && starts_with(p, key) {
            found = Some(value_after_eq(p));
        }
        i = i + 1;
    }
    proof {
        assert(pv.subrange(0, i as int) =~= pv);
    }
    found
}

/// The time unit an upper-cased unit name denotes.
fn unit_from(u: &str) -> (r: Option<TimeUnit>)
    ensures
        r == unit_of(u@),
{
    if str_eq(u, "MILLISECOND") || str_eq(u, "MILLISECONDS") {
        Some(TimeUnit::Milliseconds)
    } else if str_eq(u, "SECOND") || str_eq(u, "SECONDS") {
        Some(TimeUnit::Seconds)
    } else if str_eq(u, "MINUTE") || str_eq(u, "MINUTES") {
        Some(TimeUnit::Minutes)
    } else if str_eq(u, "HOUR") || str_eq(u, "HOURS") {
        Some(TimeUnit::Hours)
    } else {
        None
    }
}

/// Removes and parses `WINDOW('type', params)` clauses.
pub struct SqlPreprocessor;

impl SqlPreprocessor {
    /// Parses a duration: `INTERVAL 'n' UNIT` or a number of milliseconds.
    pub fn parse_time_param(param: &str) -> (r: Result<(i64, TimeUnit), PreprocessorError>)
        ensures
            r matches Ok(p) ==> time_param_spec(param@) == Some((p.0 as int, p.1)),
            r is Err ==> time_param_spec(param@) is None,
            r matches Err(e) ==> (e matches PreprocessorError::InvalidWindowParams(m) && m@ == time_param_message(param@)),
    {
        let p = trim(param);
        let upper = to_upper_text(p.as_str());
        let w = split_whitespace(p.as_str());
        if starts_with(upper.as_str(), "INTERVAL") && w.len() >= 3 {
            proof {
                assert(string_views(w@)[1] == w@[1]@);
                assert(string_views(w@)[2] == w@[2]@);
            }
            let a = trim_matches_char(w[1].as_str(), '\'');
            let value_str = trim_matches_char(a.as_str(), '"');
            let unit_str = to_upper_text(w[2].as_str());
            let value = match parse_i64(value_str.as_str()) {
                Some(v) => v,
                None => {
                    return Err(invalid_params(concat("Invalid number: ", value_str.as_str())));
                },
            };
            return match unit_from(unit_str.as_str()) {
                Some(u) => Ok((value, u)),
                None => Err(invalid_params(concat("Unknown time unit: ", unit_str.as_str()))),
            };
        }
        match parse_i64(p.as_str()) {
            Some(n) => Ok((n, TimeUnit::Milliseconds)),
            None => Err(invalid_params(concat("Cannot parse time: ", p.as_str()))),
        }
    }

    /// Parses an integer parameter.
    pub fn parse_int_param(param: &str) -> (r: Result<i64, PreprocessorError>)
        ensures
            r matches Ok(v) ==> parse_i64_spec(trim_spec(param@)) == Some(v as int),
            r is Err ==> parse_i64_spec(trim_spec(param@)) is None,
            r matches Err(e) ==> (e matches PreprocessorError::InvalidWindowParams(m) && m@ == "Invalid integer: "@ + param@),
    {
        let p = trim(param);
        match parse_i64(p.as_str()) {
            Some(v) => Ok(v),
            None => Err(invalid_params(concat("Invalid integer: ", param))),
        }
    }

    fn sliding_spec(params: &str) -> (r: Result<WindowSpec, PreprocessorError>)
        ensures
            r is Ok <==> (sliding_params(params@) matches Some(p) && time_param_spec(p.0) is Some && time_param_spec(p.1) is Some),
            r matches Ok(w) ==> (w matches WindowSpec::Sliding { window_value, window_unit, slide_value, slide_unit }
                && sliding_params(params@) matches Some(p)
                && time_param_spec(p.0) == Some((window_value as int, window_unit))
                && time_param_spec(p.1) == Some((slide_value as int, slide_unit))),
            r matches Err(e) ==> (e matches PreprocessorError::InvalidWindowParams(m) && m@ == sliding_message(params@)),
    {
        let parts = param_parts_of(params);
        if parts.len() == 0 {
            return Err(invalid_params(owned("SLIDING window requires size and slide parameters")));
        }
        let (window_str, slide_str) = if contains_char(params, '=') {
            let w = match last_value_of(&parts, "size", None) {
                Some(w) => w,
                None => {
                    return Err(invalid_params(owned("Missing 'size' parameter")));
                },
            };
            let sl = match last_value_of(&parts, "slide", Some("size")) {
                Some(sl) => sl,
                None => {
                    return Err(invalid_params(owned("Missing 'slide' parameter")));
                },
            };
            (w, sl)
        } else {
            if parts.len() < 2 {
                return Err(invalid_params(owned("SLIDING window requires 2 parameters (size, slide)")));
            }
            proof {
                assert(string_views(parts@)[0] == parts@[0]@);
                assert(string_views(parts@)[1] == parts@[1]@);
            }
            (parts[0].clone(), parts[1].clone())
        };
        let (wv, wu) = match Self::parse_time_param(window_str.as_str()) {
            Ok(x) => x,
            Err(e) => {
                return Err(e);
            },
        };
        let (sv, su) = match Self::parse_time_param(slide_str.as_str()) {
            Ok(x) => x,
            Err(e) => {
                return Err(e);
            },
        };
        Ok(WindowSpec::Sliding { window_value: wv, window_unit: wu, slide_value: sv, slide_unit: su })
    }

    fn external_spec(params: &str, batch: bool) -> (r: Result<WindowSpec, PreprocessorError>)
        ensures
            r is Ok <==> (external_params(params@) matches Some(p) && time_param_spec(p.1) is Some),
            r matches Ok(w) ==> external_params(params@) matches Some(p) && (if batch {
                w matches WindowSpec::ExternalTimeBatch { timestamp_field, value, unit }
                    && timestamp_field@ == p.0 && time_param_spec(p.1) == Some((value as int, unit))
            } else {
                w matches WindowSpec::ExternalTime { timestamp_field, value, unit }
                    && timestamp_field@ == p.0 && time_param_spec(p.1) == Some((value as int, unit))
            }),
            r matches Err(e) ==> (e matches PreprocessorError::InvalidWindowParams(m) && m@ == external_message(params@, batch)),
    {
        let parts = param_parts_of(params);
        if parts.len() == 0 {
            let m = if batch {
                owned("externalTimeBatch window requires timestamp field and duration parameters")
            } else {
                owned("externalTime window requires timestamp field and duration parameters")
            };
            return Err(invalid_params(m));
        }
        let (timestamp_field, time_param) = if contains_char(params, '=') {
            let ts = match last_value_of(&parts, "timestamp", None) {
                Some(ts) => ts,
                None => {
                    return Err(invalid_params(owned("Missing 'timestamp' parameter")));
                },
            };
            let dur = match last_value_of(&parts, "duration", Some("timestamp")) {
                Some(d) => d,
                None => {
                    return Err(invalid_params(owned("Missing 'duration' parameter")));
                },
            };
            (ts, dur)
        } else {
            if parts.len() < 2 {
                let m = if batch {
                    owned("externalTimeBatch window requires 2 parameters (timestamp, duration)")
                } else {
                    owned("externalTime window requires 2 parameters (timestamp, duration)")
                };
                return Err(invalid_params(m));
            }
            proof {
                assert(string_views(parts@)[0] == parts@[0]@);
                assert(string_views(parts@)[1] == parts@[1]@);
            }
            (parts[0].clone(), parts[1].clone())
        };
        let (value, unit) = match Self::parse_time_param(time_param.as_str()) {
            Ok(x) => x,
            Err(e) => {
                return Err(e);
            },
        };
        if batch {
            Ok(WindowSpec::ExternalTimeBatch { timestamp_field, value, unit })
        } else {
            Ok(WindowSpec::ExternalTime { timestamp_field, value, unit })
        }
    }

    /// Parses the specification of a window of type `window_type` (lowercased).
    pub fn parse_window_spec(window_type: &str, params: &str) -> (r: Result<WindowSpec, PreprocessorError>)
        ensures
            r is Ok <==> window_spec_ok(window_type@, params@),
            r matches Ok(w) ==> window_spec_is(w, window_type@, params@),
            !known_window_type(window_type@) ==> (r matches Err(PreprocessorError::InvalidWindowType(t)) && t@ == window_type@),
            known_window_type(window_type@) && r is Err ==> (r matches Err(PreprocessorError::InvalidWindowParams(m))
                && m@ == window_params_message(window_type@, params@)),
    {
        if str_eq(window_type, "tumbling") {
            let p = single_param_of(params);
            match Self::parse_time_param(p.as_str()) {
                Ok((value, unit)) => Ok(WindowSpec::Tumbling { value, unit }),
                Err(e) => Err(e),
            }
        } else if str_eq(window_type, "sliding") || str_eq(window_type, "hop") {
            Self::sliding_spec(params)
        } else if str_eq(window_type, "length") {
            let p = single_param_of(params);
            match Self::parse_int_param(p.as_str()) {
                Ok(size) => Ok(WindowSpec::Length { size }),
                Err(e) => Err(e),
            }
        } else if str_eq(window_type, "session") {
            let p = single_param_of(params);
            match Self::parse_time_param(p.as_str()) {
                Ok((value, unit)) => Ok(WindowSpec::Session { value, unit }),
                Err(e) => Err(e),
            }
        } else if str_eq(window_type, "time") {
            let p = single_param_of(params);
            match Self::parse_time_param(p.as_str()) {
                Ok((value, unit)) => Ok(WindowSpec::Time { value, unit }),
                Err(e) => Err(e),
            }
        } else if str_eq(window_type, "timebatch") {
            let p = single_param_of(params);
            match Self::parse_time_param(p.as_str()) {
                Ok((value, unit)) => Ok(WindowSpec::TimeBatch { value, unit }),
                Err(e) => Err(e),
            }
        } else if str_eq(window_type, "lengthbatch") {
            let p = single_param_of(params);
            match Self::parse_int_param(p.as_str()) {
                Ok(size) => Ok(WindowSpec::LengthBatch { size }),
                Err(e) => Err(e),
            }
        } else if str_eq(window_type, "externaltime") {
            Self::external_spec(params, false)
        } else if str_eq(window_type, "externaltimebatch") {
            Self::external_spec(params, true)
        } else {
            Err(PreprocessorError::InvalidWindowType(owned(window_type)))
        }
    }

    /// Takes the first `WINDOW('type', params)` clause out of `sql` and parses
    /// it; SQL without one is returned unchanged.
    pub fn preprocess(sql: &str) -> (r: Result<PreprocessedSql, PreprocessorError>)
        ensures
            window_match(sql@) is None ==> (r matches Ok(p) && p.standard_sql@ == sql@ && p.window_clause is None),
            window_match(sql@) matches Some(m) ==> ({
                let t = lowercase(m.1);
                let params = trim_spec(m.2);
                &&& r is Ok <==> window_spec_ok(t, params)
                &&& r matches Ok(p) ==> (p.window_clause matches Some(w)
                    && w.full_match@ == m.0 && w.window_type@ == t && w.parameters@ == params
                    && window_spec_is(w.spec, t, params)
                    && p.standard_sql@ == trim_spec(replaced(sql@, m.0, Seq::empty())))
            }),
    {
        match regex_captures(r#"(?i)\bWINDOW\s*\(\s*'(\w+)'\s*,\s*(.+?)\s*\)"#, sql) {
            None => Ok(PreprocessedSql { standard_sql: owned(sql), window_clause: None }),
            Some((full_match, raw_type, raw_params)) => {
                let window_type = to_lowercase(raw_type.as_str());
                let parameters = trim(raw_params.as_str());
                let spec = match Self::parse_window_spec(window_type.as_str(), parameters.as_str()) {
                    Ok(s) => s,
                    Err(e) => {
                        return Err(e);
                    },
                };
                let empty = String::new();
                proof {
                    assert(empty@ =~= Seq::<char>::empty());
                }
                let removed = replace_str(sql, full_match.as_str(), empty.as_str());
                let standard_sql = trim(removed.as_str());
                Ok(PreprocessedSql {
                    standard_sql,
                    window_clause: Some(WindowClauseText { full_match, window_type, parameters, spec }),
                })
            },
        }
    }
}

} // verus!
