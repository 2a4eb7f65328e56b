//! String functions: `length`, `concat`, `lower`, `upper`, `trim`,
//! `replace` and `LIKE`. A `NULL` argument gives `NULL`; an argument of
//! another type gives no value.

use vstd::prelude::*;
use crate::engine::event::{AttributeValue, AttrView, Event};
use crate::engine::executor::ExpressionExecutor;
use crate::query_api::definition::attribute::AttributeType;
use crate::engine::config::stream_config::opt_view;
use vstd::string::StringSliceAdditionalSpecFns;
use vstd::utf8::{decode_utf8, encode_utf8, is_char_boundary};
use crate::text::{lemma_replaced_absent, lemma_replaced_first_match, matches_at};
use crate::text::{chars_of, concat, lowercase, owned, replace_str, replaced, to_lowercase, to_uppercase, trim, trim_spec, uppercase};

verus! {

// ---------------------------------------------------------------------------
// length
// ---------------------------------------------------------------------------

/// `length(s)`: the number of UTF-8 bytes of `s`.
pub struct LengthFunctionExecutor {
    expr: Box<dyn ExpressionExecutor>,
}

impl LengthFunctionExecutor {
    pub fn new(expr: Box<dyn ExpressionExecutor>) -> (r: Result<Self, String>)
        ensures
            r is Ok <==> expr.return_type() == AttributeType::STRING,
            r matches Err(m) ==> m@ == "length() requires a STRING argument"@,
    {
        if expr.get_return_type() != AttributeType::STRING {
            return Err(owned("length() requires a STRING argument"));
        }
        Ok(LengthFunctionExecutor { expr })
    }
}

impl ExpressionExecutor for LengthFunctionExecutor {
    open spec fn return_type(&self) -> AttributeType {
        AttributeType::INT
    }

    closed spec fn value_on(&self, event: Option<&Event>) -> Option<AttrView> {
        match self.expr.value_on(event) {
            Some(AttrView::String(s)) => Some(AttrView::Int((vstd::utf8::encode_utf8(s).len() as usize) as i32)),
            Some(AttrView::Null) => Some(AttrView::Null),
            _ => None,
        }
    }

    fn execute(&self, event: Option<&Event>) -> (r: Option<AttributeValue>) {
        match self.expr.execute(event) {
            Some(AttributeValue::String(s)) => Some(AttributeValue::Int(s.as_str().len() as i32)),
            Some(AttributeValue::Null) => Some(AttributeValue::Null),
            _ => None,
        }
    }

    fn get_return_type(&self) -> (r: AttributeType) {
        AttributeType::INT
    }
}

// ---------------------------------------------------------------------------
// concat
// ---------------------------------------------------------------------------

/// The concatenation of the values of `execs` after `acc`: `NULL` at the
/// first `NULL`, no value at the first non-string or missing value.
pub open spec fn concat_values(execs: Seq<Box<dyn ExpressionExecutor>>, event: Option<&Event>, acc: Seq<char>) -> Option<AttrView>
    decreases execs.len(),
{
    if execs.len() == 0 {
        Some(AttrView::String(acc))
    } else {
        match execs[0].value_on(event) {
            Some(AttrView::String(s)) => concat_values(execs.drop_first(), event, acc + s),
            Some(AttrView::Null) => Some(AttrView::Null),
            _ => None,
        }
    }
}

/// `concat(a, b, ...)`.
pub struct ConcatFunctionExecutor {
    executors: Vec<Box<dyn ExpressionExecutor>>,
}

impl ConcatFunctionExecutor {
    /// At least one argument, every one a string.
    pub fn new(executors: Vec<Box<dyn ExpressionExecutor>>) -> (r: Result<Self, String>)
        ensures
            r is Ok <==> executors@.len() > 0 && forall|i: int| 0 <= i < executors@.len() ==> (#[trigger] executors@[i]).return_type() == AttributeType::STRING,
            r matches Err(m) ==> (executors@.len() == 0 && m@ == "concat() requires at least one argument"@)
                || (executors@.len() > 0 && m@ == "concat() arguments must be STRING"@),
    {
        if executors.len() == 0 {
            return Err(owned("concat() requires at least one argument"));
        }
        let mut i: usize = 0;
        while i < executors.len()
            invariant
                i <= executors@.len(),
                forall|j: int| 0 <= j < i ==> (#[trigger] executors@[j]).return_type() == AttributeType::STRING,
            decreases executors@.len() - i,
        {
            if executors[i].get_return_type() != AttributeType::STRING {
                return Err(owned("concat() arguments must be STRING"));
            }
            i = i + 1;
        }
        Ok(ConcatFunctionExecutor { executors })
    }
}

impl ExpressionExecutor for ConcatFunctionExecutor {
    open spec fn return_type(&self) -> AttributeType {
        AttributeType::STRING
    }

    closed spec fn value_on(&self, event: Option<&Event>) -> Option<AttrView> {
        concat_values(self.executors@, event, Seq::empty())
    }

    fn execute(&self, event: Option<&Event>) -> (r: Option<AttributeValue>) {
        let mut result = String::new();
        let mut i: usize = 0;
        let ghost execs = self.executors@;
        assert(execs.skip(0) =~= execs);
        while i < self.executors.len()
            invariant
                i <= execs.len(),
                execs == self.executors@,
                concat_values(execs, event, Seq::empty()) == concat_values(execs.skip(i as int), event, result@),
            decreases execs.len() - i,
        {
            proof {
                assert(execs.skip(i as int)[0] == execs[i as int]);
                assert(execs.skip(i as int).drop_first() =~= execs.skip(i + 1));
            }
            match self.executors[i].execute(event) {
                Some(AttributeValue::String(s)) => {
                    result = concat(result.as_str(), s.as_str());
                },
                Some(AttributeValue::Null) => {
                    return Some(AttributeValue::Null);
                },
                Some(v) => {
                    return None;
                },
                None => {
                    return None;
                },
            }
            i = i + 1;
        }
        assert(execs.skip(execs.len() as int).len() == 0);
        Some(AttributeValue::String(result))
    }

    fn get_return_type(&self) -> (r: AttributeType) {
        AttributeType::STRING
    }
}

// ---------------------------------------------------------------------------
// lower, upper, trim
// ---------------------------------------------------------------------------

/// `lower(s)`: Unicode lowercase.
pub struct LowerFunctionExecutor {
    expr: Box<dyn ExpressionExecutor>,
}

impl LowerFunctionExecutor {
    pub fn new(expr: Box<dyn ExpressionExecutor>) -> (r: Result<Self, String>)
        ensures
            r is Ok <==> expr.return_type() == AttributeType::STRING,
            r matches Err(m) ==> m@ == "lower() requires a STRING argument"@,
    {
        if expr.get_return_type() != AttributeType::STRING {
            return Err(owned("lower() requires a STRING argument"));
        }
        Ok(LowerFunctionExecutor { expr })
    }
}

impl ExpressionExecutor for LowerFunctionExecutor {
    open spec fn return_type(&self) -> AttributeType {
        AttributeType::STRING
    }

    closed spec fn value_on(&self, event: Option<&Event>) -> Option<AttrView> {
        match self.expr.value_on(event) {
            Some(AttrView::String(s)) => Some(AttrView::String(lowercase(s))),
            Some(AttrView::Null) => Some(AttrView::Null),
            _ => None,
        }
    }

    fn execute(&self, event: Option<&Event>) -> (r: Option<AttributeValue>) {
        match self.expr.execute(event) {
            Some(AttributeValue::String(s)) => Some(AttributeValue::String(to_lowercase(s.as_str()))),
            Some(AttributeValue::Null) => Some(AttributeValue::Null),
            _ => None,
        }
    }

    fn get_return_type(&self) -> (r: AttributeType) {
        AttributeType::STRING
    }
}

/// `upper(s)`: Unicode uppercase.
pub struct UpperFunctionExecutor {
    expr: Box<dyn ExpressionExecutor>,
}

impl UpperFunctionExecutor {
    pub fn new(expr: Box<dyn ExpressionExecutor>) -> (r: Result<Self, String>)
        ensures
            r is Ok <==> expr.return_type() == AttributeType::STRING,
            r matches Err(m) ==> m@ == "upper() requires a STRING argument"@,
    {
        if expr.get_return_type() != AttributeType::STRING {
            return Err(owned("upper() requires a STRING argument"));
        }
        Ok(UpperFunctionExecutor { expr })
    }
}

impl ExpressionExecutor for UpperFunctionExecutor {
    open spec fn return_type(&self) -> AttributeType {
        AttributeType::STRING
    }

    closed spec fn value_on(&self, event: Option<&Event>) -> Option<AttrView> {
        match self.expr.value_on(event) {
            Some(AttrView::String(s)) => Some(AttrView::String(uppercase(s))),
            Some(AttrView::Null) => Some(AttrView::Null),
            _ => None,
        }
    }

    fn execute(&self, event: Option<&Event>) -> (r: Option<AttributeValue>) {
        match self.expr.execute(event) {
            Some(AttributeValue::String(s)) => Some(AttributeValue::String(to_uppercase(s.as_str()))),
            Some(AttributeValue::Null) => Some(AttributeValue::Null),
            _ => None,
        }
    }

    fn get_return_type(&self) -> (r: AttributeType) {
        AttributeType::STRING
    }
}

/// `substring(s, start[, length])`. Its evaluation slices the string by
/// byte positions taken from integer or floating-point arguments, which is
/// left to the application; the library checks the argument types.
pub struct SubstringFunctionExecutor {
    pub value_executor: Box<dyn ExpressionExecutor>,
    pub start_executor: Box<dyn ExpressionExecutor>,
    pub length_executor: Option<Box<dyn ExpressionExecutor>>,
}

impl SubstringFunctionExecutor {
    /// The value must be a string, the start and length must not be.
    pub fn new(
        value_executor: Box<dyn ExpressionExecutor>,
        start_executor: Box<dyn ExpressionExecutor>,
        length_executor: Option<Box<dyn ExpressionExecutor>>,
    ) -> (r: Result<Self, String>)
        ensures
            value_executor.return_type() != AttributeType::STRING
                ==> (r matches Err(m) && m@ == "substring() requires STRING as first argument"@),
            value_executor.return_type() == AttributeType::STRING && start_executor.return_type() == AttributeType::STRING
                ==> (r matches Err(m) && m@ == "substring() start index must be numeric"@),
            value_executor.return_type() == AttributeType::STRING && start_executor.return_type() != AttributeType::STRING
                ==> (match length_executor {
                    Some(le) => if le.return_type() == AttributeType::STRING {
                        r matches Err(m) && m@ == "substring() length must be numeric"@
                    } else {
                        r is Ok
                    },
                    None => r is Ok,
                }),
    {
        if value_executor.get_return_type() != AttributeType::STRING {
            return Err(owned("substring() requires STRING as first argument"));
        }
        if start_executor.get_return_type() == AttributeType::STRING {
            return Err(owned("substring() start index must be numeric"));
        }
        match &length_executor {
            Some(le) => {
                if le.get_return_type() == AttributeType::STRING {
                    return Err(owned("substring() length must be numeric"));
                }
            },
            None => {},
        }
        Ok(SubstringFunctionExecutor { value_executor, start_executor, length_executor })
    }

    pub fn get_return_type(&self) -> (r: AttributeType)
        ensures
            r == AttributeType::STRING,
    {
        AttributeType::STRING
    }
}

/// What `substring` gives for text `s`, byte position `start` (a negative one
/// counts as zero) and, when there is one, a length in bytes: the bytes from
/// the start up to the length or the end of the text, nothing at or past the
/// end; `None` where the positions cannot be used: the end position
/// overflows, or a cut falls inside a character. A negative length stands
/// for a very large count of bytes, as a cast to `usize` makes it.
pub open spec fn substring_spec(s: Seq<char>, start: i32, length: Option<i32>) -> Option<Seq<char>> {
    let bytes = encode_utf8(s);
    let n = bytes.len() as int;
    let st: int = if start < 0 { 0 } else { start as int };
    if st >= n {
        Some(Seq::empty())
    } else {
        let end: int = match length {
            None => n,
            Some(l) => {
                let e = st + (l as usize) as int;
                if e > usize::MAX { -1 } else if e < n { e } else { n }
            },
        };
        if end < 0 || !is_char_boundary(bytes, st) || !is_char_boundary(bytes.subrange(st, n), end - st) {
            None
        } else {
            Some(decode_utf8(bytes.subrange(st, n).subrange(0, end - st)))
        }
    }
}

/// `substring_spec`: the part of `s` from byte `start` on, of at most
/// `length` bytes when a length is given.
pub fn substring_of(s: &str, start: i32, length: Option<i32>) -> (r: Option<String>)
    ensures
        opt_view(r) == substring_spec(s@, start, length),
{
    broadcast use vstd::utf8::encode_utf8_decode_utf8;
    let n = s.as_bytes().len();
    let st: usize = if start < 0 { 0 } else { start as usize };
    if st >= n {
        let r = String::new();
        proof {
            assert(r@ =~= Seq::<char>::empty());
        }
        return Some(r);
    }
    let end: usize = match length {
        None => n,
        Some(l) => {
            let len = l as usize;
            match st.checked_add(len) {
                None => {
                    return None;
                },
                Some(e) => if e < n { e } else { n },
            }
        },
    };
    if !s.is_char_boundary(st) {
        return None;
    }
    let (_, rest) = s.split_at(st);
    if !rest.is_char_boundary(end - st) {
        return None;
    }
    let (mid, _) = rest.split_at(end - st);
    proof {
        assert(rest.spec_bytes() =~= s.spec_bytes().subrange(st as int, n as int));
        assert(mid.spec_bytes() =~= rest.spec_bytes().subrange(0, end - st));
    }
    Some(owned(mid))
}

/// `trim(s)`: without leading and trailing whitespace.
pub struct TrimFunctionExecutor {
    expr: Box<dyn ExpressionExecutor>,
}

impl TrimFunctionExecutor {
    /// Any argument is accepted.
    pub fn new(expr: Box<dyn ExpressionExecutor>) -> (r: Result<Self, String>)
        ensures
            r is Ok,
    {
        Ok(TrimFunctionExecutor { expr })
    }
}

impl ExpressionExecutor for TrimFunctionExecutor {
    open spec fn return_type(&self) -> AttributeType {
        AttributeType::STRING
    }

    closed spec fn value_on(&self, event: Option<&Event>) -> Option<AttrView> {
        match self.expr.value_on(event) {
            Some(AttrView::String(s)) => Some(AttrView::String(trim_spec(s))),
            Some(AttrView::Null) => Some(AttrView::Null),
            _ => None,
        }
    }

    fn execute(&self, event: Option<&Event>) -> (r: Option<AttributeValue>) {
        match self.expr.execute(event) {
            Some(AttributeValue::String(s)) => Some(AttributeValue::String(trim(s.as_str()))),
            Some(AttributeValue::Null) => Some(AttributeValue::Null),
            _ => None,
        }
    }

    fn get_return_type(&self) -> (r: AttributeType) {
        AttributeType::STRING
    }
}

// ---------------------------------------------------------------------------
// replace
// ---------------------------------------------------------------------------

/// `replace(s, from, to)`: every occurrence of `from` replaced by `to`.
pub struct ReplaceFunctionExecutor {
    value_executor: Box<dyn ExpressionExecutor>,
    from_executor: Box<dyn ExpressionExecutor>,
    to_executor: Box<dyn ExpressionExecutor>,
}

impl ReplaceFunctionExecutor {
    /// The values of the text, the search text and the replacement on `event`.
    pub closed spec fn operands(&self, event: Option<&Event>) -> (Option<AttrView>, Option<AttrView>, Option<AttrView>) {
        (self.value_executor.value_on(event), self.from_executor.value_on(event), self.to_executor.value_on(event))
    }

    pub fn new(
        value_executor: Box<dyn ExpressionExecutor>,
        from_executor: Box<dyn ExpressionExecutor>,
        to_executor: Box<dyn ExpressionExecutor>,
    ) -> (r: Result<Self, String>)
        ensures
            r is Ok,
    {
        Ok(ReplaceFunctionExecutor { value_executor, from_executor, to_executor })
    }
}

impl ExpressionExecutor for ReplaceFunctionExecutor {
    open spec fn return_type(&self) -> AttributeType {
        AttributeType::STRING
    }

    closed spec fn value_on(&self, event: Option<&Event>) -> Option<AttrView> {
        match (self.value_executor.value_on(event), self.from_executor.value_on(event), self.to_executor.value_on(event)) {
            (Some(v), Some(f), Some(t)) => if v is Null || f is Null || t is Null {
                Some(AttrView::Null)
            } else {
                match (v, f, t) {
                    (AttrView::String(s), AttrView::String(a), AttrView::String(b)) => Some(AttrView::String(replaced(s, a, b))),
                    _ => None,
                }
            },
            _ => None,
        }
    }

    fn execute(&self, event: Option<&Event>) -> (r: Option<AttributeValue>) {
        let value = match self.value_executor.execute(event) {
            Some(v) => v,
            None => return None,
        };
        let from = match self.from_executor.execute(event) {
            Some(v) => v,
            None => return None,
        };
        let to = match self.to_executor.execute(event) {
            Some(v) => v,
            None => return None,
        };
        match (&value, &from, &to) {
            (AttributeValue::Null, _, _) | (_, AttributeValue::Null, _) | (_, _, AttributeValue::Null) => Some(AttributeValue::Null),
            (AttributeValue::String(s), AttributeValue::String(f), AttributeValue::String(t)) => {
                Some(AttributeValue::String(replace_str(s.as_str(), f.as_str(), t.as_str())))
            },
            _ => None,
        }
    }

    fn get_return_type(&self) -> (r: AttributeType) {
        AttributeType::STRING
    }
}

// ---------------------------------------------------------------------------
// LIKE
// ---------------------------------------------------------------------------

/// Whether `regex::escape` puts a backslash before `c`.
pub open spec fn regex_meta(c: char) -> bool {
    c == '\\' || c == '.' || c == '+' || c == '*' || c == '?' || c == '(' || c == ')' || c == '|' || c == '['
        || c == ']' || c == '{' || c == '}' || c == '^' || c == '$' || c == '#' || c == '&' || c == '-' || c == '~'
}

/// `regex::escape` of a single character.
pub open spec fn escaped_char(c: char) -> Seq<char> {
    if regex_meta(c) {
        seq!['\\', c]
    } else {
        seq![c]
    }
}

/// `regex::escape` of the one-character string `c`.
#[verifier::external_body]
fn regex_escape_char(c: char) -> (r: String)
    ensures
        r@ == escaped_char(c),
{
    regex::escape(&c.to_string())
}

/// Whether `text` matches `pattern` with the `regex` crate, or `None` when
/// `pattern` is not a valid regular expression.
pub uninterp spec fn regex_is_match(pattern: Seq<char>, text: Seq<char>) -> Option<bool>;

/// `Regex::new(pattern)` and `is_match(text)`; the contract names the outcome.
#[verifier::external_body]
fn regex_match(pattern: &str, text: &str) -> (r: Option<bool>)
    ensures
        r == regex_is_match(pattern@, text@),
{
    match regex::Regex::new(pattern) {
        Ok(re) => Some(re.is_match(text)),
        Err(_) => None,
    }
}

/// The regular expression of a `LIKE` pattern without its anchors: `%` is
/// any text, `_` any character, `\` takes the next character literally (a
/// final `\` is dropped), every other character stands for itself.
pub open spec fn like_body(p: Seq<char>) -> Seq<char>
    decreases p.len(),
{
    if p.len() == 0 {
        Seq::empty()
    } else if p[0] == '%' {
        seq!['.', '*'] + like_body(p.drop_first())
    } else if p[0] == '_' {
        seq!['.'] + like_body(p.drop_first())
    } else if p[0] == '\\' {
        if p.len() >= 2 {
            escaped_char(p[1]) + like_body(p.skip(2))
        } else {
            Seq::empty()
        }
    } else {
        escaped_char(p[0]) + like_body(p.drop_first())
    }
}

/// The anchored regular expression of a `LIKE` pattern.
pub open spec fn like_regex(p: Seq<char>) -> Seq<char> {
    seq!['^'] + like_body(p) + seq!['$']
}

/// `SQL LIKE`: `value LIKE pattern`.
pub struct LikeFunctionExecutor {
    value_executor: Box<dyn ExpressionExecutor>,
    pattern_executor: Box<dyn ExpressionExecutor>,
}

impl LikeFunctionExecutor {
    /// The values of the operand and of the pattern on `event`.
    pub closed spec fn operands(&self, event: Option<&Event>) -> (Option<AttrView>, Option<AttrView>) {
        (self.value_executor.value_on(event), self.pattern_executor.value_on(event))
    }

    pub fn new(value_executor: Box<dyn ExpressionExecutor>, pattern_executor: Box<dyn ExpressionExecutor>) -> (r: Result<Self, String>)
        ensures
            r is Ok,
    {
        Ok(LikeFunctionExecutor { value_executor, pattern_executor })
    }

    /// The anchored regular expression of a `LIKE` pattern (`like_regex`).
    pub fn like_to_regex(pattern: &str) -> (r: String)
        ensures
            r@ == like_regex(pattern@),
    {
        let p = chars_of(pattern);
        let mut regex = owned("^");
        proof {
            reveal_strlit("^");
            reveal_strlit("$");
            reveal_strlit(".*");
            reveal_strlit(".");
            assert(p@.skip(0) =~= p@);
        }
        let mut i: usize = 0;
        while i < p.len()
            invariant
                i <= p@.len(),
                p@ == pattern@,
                regex@ + like_body(p@.skip(i as int)) == seq!['^'] + like_body(p@),
            decreases p@.len() - i,
        {
            let c = p[i];
            let ghost rest = p@.skip(i as int);
            assert(rest[0] == c);
            if c == '%' {
                regex = concat(regex.as_str(), ".*");
                proof {
                    reveal_strlit(".*");
                    assert(rest.drop_first() =~= p@.skip(i + 1));
                    assert(".*"@ =~= seq!['.', '*']);
                }
                i = i + 1;
            } else if c == '_' {
                regex = concat(regex.as_str(), ".");
                proof {
                    reveal_strlit(".");
                    assert(rest.drop_first() =~= p@.skip(i + 1));
                    assert("."@ =~= seq!['.']);
                }
                i = i + 1;
            } else if c == '\\' {
                if i + 1 < p.len() {
                    let e = regex_escape_char(p[i + 1]);
                    regex = concat(regex.as_str(), e.as_str());
                    proof {
                        assert(rest[1] == p@[i + 1]);
                        assert(rest.skip(2) =~= p@.skip(i + 2));
                    }
                    i = i + 2;
                } else {
                    proof {
                        assert(p@.skip(i + 1).len() == 0);
                    }
                    i = i + 1;
                }
            } else {
                let e = regex_escape_char(c);
                regex = concat(regex.as_str(), e.as_str());
                proof {
                    assert(rest.drop_first() =~= p@.skip(i + 1));
                }
                i = i + 1;
            }
            proof {
                assert((regex@ + like_body(p@.skip(i as int))) =~= seq!['^'] + like_body(p@));
            }
        }
        proof {
            assert(p@.skip(p@.len() as int) =~= Seq::<char>::empty());
            assert(regex@ + Seq::<char>::empty() =~= regex@);
            assert("$"@ =~= seq!['$']);
        }
        concat(regex.as_str(), "$")
    }
}

impl ExpressionExecutor for LikeFunctionExecutor {
    open spec fn return_type(&self) -> AttributeType {
        AttributeType::BOOL
    }

    closed spec fn value_on(&self, event: Option<&Event>) -> Option<AttrView> {
        match (self.value_executor.value_on(event), self.pattern_executor.value_on(event)) {
            (Some(v), Some(p)) => if v is Null || p is Null {
                Some(AttrView::Null)
            } else {
                match (v, p) {
                    (AttrView::String(s), AttrView::String(q)) => match regex_is_match(like_regex(q), s) {
                        Some(b) => Some(AttrView::Bool(b)),
                        None => None,
                    },
                    _ => None,
                }
            },
            _ => None,
        }
    }

    fn execute(&self, event: Option<&Event>) -> (r: Option<AttributeValue>) {
        let value = match self.value_executor.execute(event) {
            Some(v) => v,
            None => return None,
        };
        let pattern = match self.pattern_executor.execute(event) {
            Some(v) => v,
            None => return None,
        };
        match (&value, &pattern) {
            (AttributeValue::Null, _) | (_, AttributeValue::Null) => Some(AttributeValue::Null),
            (AttributeValue::String(s), AttributeValue::String(p)) => {
                let regex_pattern = Self::like_to_regex(p.as_str());
                match regex_match(regex_pattern.as_str(), s.as_str()) {
                    Some(b) => Some(AttributeValue::Bool(b)),
                    None => None,
                }
            },
            _ => None,
        }
    }

    fn get_return_type(&self) -> (r: AttributeType) {
        AttributeType::BOOL
    }
}

/// `value LIKE pattern` on text matches the whole value against the
/// regular expression of the pattern itself: the expression is anchored at
/// both ends (`^`, `$`), and a pattern that does not begin with a wildcard
/// (`%`, `_`) or an escape begins its expression, right after `^`, with its
/// first character taken literally; so such a pattern only matches values that
/// begin with that character. A `NULL` operand gives `NULL`.
pub proof fn law_like_matches_whole_value(e: &LikeFunctionExecutor, event: Option<&Event>, s: Seq<char>, q: Seq<char>)
    requires
        e.operands(event) == (Some(AttrView::String(s)), Some(AttrView::String(q))),
    ensures
        e.value_on(event) == (match regex_is_match(like_regex(q), s) {
            Some(b) => Some(AttrView::Bool(b)),
            None => None,
        }),
        like_regex(q).len() >= 2 && like_regex(q)[0] == '^' && like_regex(q).last() == '$',
        q.len() > 0 && q[0] != '%' && q[0] != '_' && q[0] != '\\'
            ==> like_regex(q).subrange(0, escaped_char(q[0]).len() + 1int) == seq!['^'] + escaped_char(q[0]),
{
    if q.len() > 0 && q[0] != '%' && q[0] != '_' && q[0] != '\\' {
        let b = like_body(q);
        assert(b == escaped_char(q[0]) + like_body(q.drop_first()));
        assert(like_regex(q).subrange(0, escaped_char(q[0]).len() + 1int) =~= seq!['^'] + escaped_char(q[0]));
    }
}

/// The regular expression of a `LIKE` pattern is built piece by piece: for
/// patterns without escapes, that of `p + q` is that of `p` followed by that
/// of `q`; `%` stands for any text (`.*`), `_` for one character (`.`), and
/// any other character for itself, escaped where the regex syntax needs it.
pub proof fn law_like_regex_pieces(p: Seq<char>, q: Seq<char>, c: char)
    requires
        !p.contains('\\'),
    ensures
        like_body(p + q) == like_body(p) + like_body(q),
        like_body(seq!['%']) == seq!['.', '*'],
        like_body(seq!['_']) == seq!['.'],
        c != '%' && c != '_' && c != '\\' ==> like_body(seq![c]) == escaped_char(c),
        !regex_meta(c) ==> escaped_char(c) == seq![c],
    decreases p.len(),
{
    if p.len() > 0 {
        let p1 = p.drop_first();
        assert(!p1.contains('\\')) by {
            if p1.contains('\\') {
                let i = choose|i: int| 0 <= i < p1.len() && p1[i] == '\\';
                assert(p[i + 1] == '\\');
            }
        }
        assert(p[0] != '\\') by {
            assert(p[0] == p[0]);
            if p[0] == '\\' {
                assert(p.contains('\\'));
            }
        }
        law_like_regex_pieces(p1, q, c);
        assert((p + q).drop_first() =~= p1 + q);
        assert((p + q)[0] == p[0]);
    } else {
        assert(p + q =~= q);
        assert(like_body(p) =~= Seq::<char>::empty());
    }
    assert(seq!['%'].drop_first() =~= Seq::<char>::empty());
    assert(seq!['_'].drop_first() =~= Seq::<char>::empty());
    assert(seq![c].drop_first() =~= Seq::<char>::empty());
    assert(like_body(Seq::<char>::empty()) =~= Seq::<char>::empty());
    assert(seq!['.', '*'] + Seq::<char>::empty() =~= seq!['.', '*']);
    assert(seq!['.'] + Seq::<char>::empty() =~= seq!['.']);
    assert(escaped_char(c) + Seq::<char>::empty() =~= escaped_char(c));
}

/// `NULL LIKE p` and `v LIKE NULL` are `NULL` when the other side has a value.
pub proof fn law_like_null(e: &LikeFunctionExecutor, event: Option<&Event>, v: AttrView, p: AttrView)
    requires
        e.operands(event) == (Some(v), Some(p)),
        v is Null || p is Null,
    ensures
        e.value_on(event) == Some(AttrView::Null),
{
}

/// `replace(s, from, to)` replaces the first match of a non-empty `from`,
/// whatever its length: in `x + from + y` where no match starts inside `x`,
/// the result is `x`, then `to`, then `y` with its own matches replaced.
pub proof fn law_replace_takes_first_match(
    e: &ReplaceFunctionExecutor,
    event: Option<&Event>,
    x: Seq<char>,
    from: Seq<char>,
    y: Seq<char>,
    to: Seq<char>,
)
    requires
        e.operands(event) == (Some(AttrView::String(x + from + y)), Some(AttrView::String(from)), Some(AttrView::String(to))),
        from.len() > 0,
        forall|i: int| 0 <= i < x.len() ==> !matches_at(x + from + y, from, i),
    ensures
        e.value_on(event) == Some(AttrView::String(x + to + replaced(y, from, to))),
{
    lemma_replaced_first_match(x, from, y, to);
}

/// `replace(s, from, to)` leaves `s` unchanged when a non-empty `from` does
/// not occur in it.
pub proof fn law_replace_without_match(e: &ReplaceFunctionExecutor, event: Option<&Event>, s: Seq<char>, from: Seq<char>, to: Seq<char>)
    requires
        e.operands(event) == (Some(AttrView::String(s)), Some(AttrView::String(from)), Some(AttrView::String(to))),
        from.len() > 0,
        forall|i: int| !matches_at(s, from, i),
    ensures
        e.value_on(event) == Some(AttrView::String(s)),
{
    lemma_replaced_absent(s, from, to);
}

} // verus!
