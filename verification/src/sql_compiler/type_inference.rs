//! Compile-time type inference for query expressions.

use vstd::prelude::*;
use crate::query_api::execution::input_stream::InputStreamTrait;
use crate::query_api::definition::attribute::{AttributeType, attr_views};
use crate::query_api::definition::stream_definition::attr_type_of;
use crate::query_api::expression::expression::{Expression, Constant, ConstantValue, Variable, AttributeFunction};
use crate::query_api::expression::case::{Case, WhenClause};
use crate::query_api::execution::input_stream::{InputStream, SingleInputStream, StreamHandler, stream_ids_of};
use crate::query_api::execution::query::Query;
use crate::sql_compiler::catalog::SqlCatalog;
use crate::sql_compiler::error::TypeError;
use crate::property_map::{string_views, push_unique};
use crate::text::{owned, concat, str_eq, to_lowercase, lowercase, to_uppercase, uppercase};
use crate::number::{usize_to_string, int_text};

verus! {

/// The streams whose columns an unqualified column name may refer to.
#[derive(Debug, Clone)]
pub struct TypeContext {
    pub available_streams: Vec<String>,
}

impl TypeContext {
    /// No streams.
    pub fn new() -> (r: Self)
        ensures
            r.available_streams@.len() == 0,
    {
        TypeContext { available_streams: Vec::new() }
    }

    /// One stream.
    pub fn from_stream(stream_name: String) -> (r: Self)
        ensures
            string_views(r.available_streams@) == seq![stream_name@],
    {
        let mut v: Vec<String> = Vec::new();
        let ghost n = stream_name@;
        v.push(stream_name);
        proof {
            assert(string_views(v@) =~= seq![n]);
        }
        TypeContext { available_streams: v }
    }

    /// The same context with one more stream at the end.
    pub fn with_stream(self, stream_name: String) -> (r: Self)
        ensures
            string_views(r.available_streams@) == string_views(self.available_streams@).push(stream_name@),
    {
        let mut v = self.available_streams;
        let ghost before = v@;
        let ghost n = stream_name@;
        v.push(stream_name);
        proof {
            assert(string_views(v@) =~= string_views(before).push(n));
        }
        TypeContext { available_streams: v }
    }

    /// The given streams, in order.
    pub fn from_streams(streams: Vec<String>) -> (r: Self)
        ensures
            r.available_streams@ == streams@,
    {
        TypeContext { available_streams: streams }
    }
}

impl Default for TypeContext {
    fn default() -> (r: Self)
        ensures
            r.available_streams@.len() == 0,
    {
        Self::new()
    }
}

pub open spec fn is_numeric_spec(t: AttributeType) -> bool {
    t == AttributeType::INT || t == AttributeType::LONG || t == AttributeType::FLOAT || t == AttributeType::DOUBLE
}

/// Numeric precedence: DOUBLE > FLOAT > LONG > INT.
pub open spec fn precedence(t: AttributeType) -> u8 {
    match t {
        AttributeType::DOUBLE => 4,
        AttributeType::FLOAT => 3,
        AttributeType::LONG => 2,
        AttributeType::INT => 1,
        _ => 0,
    }
}

fn type_precedence(t: AttributeType) -> (r: u8)
    ensures
        r == precedence(t),
{
    match t {
        AttributeType::DOUBLE => 4,
        AttributeType::FLOAT => 3,
        AttributeType::LONG => 2,
        AttributeType::INT => 1,
        _ => 0,
    }
}

fn is_numeric(t: AttributeType) -> (r: bool)
    ensures
        r == is_numeric_spec(t),
{
    match t {
        AttributeType::INT | AttributeType::LONG | AttributeType::FLOAT | AttributeType::DOUBLE => true,
        _ => false,
    }
}

/// The type of a constant.
pub open spec fn constant_type(c: Constant) -> AttributeType {
    match c.value {
        ConstantValue::Int(_) => AttributeType::INT,
        ConstantValue::Long(_) => AttributeType::LONG,
        ConstantValue::Time(_) => AttributeType::LONG,
        ConstantValue::Float(_) => AttributeType::FLOAT,
        ConstantValue::Double(_) => AttributeType::DOUBLE,
        ConstantValue::String(_) => AttributeType::STRING,
        ConstantValue::Bool(_) => AttributeType::BOOL,
        ConstantValue::Null => AttributeType::OBJECT,
    }
}

/// The type of a column of a stream known to the catalog.
pub open spec fn column_type(cat: SqlCatalog, stream: Seq<char>, column: Seq<char>) -> Option<AttributeType> {
    match cat.resolve_stream(stream) {
        Some(s) => attr_type_of(attr_views(s.abstract_definition.attribute_list@), column),
        None => None,
    }
}

/// The type of an unqualified column: from the first of `streams` that has it.
pub open spec fn first_column_type(cat: SqlCatalog, streams: Seq<Seq<char>>, column: Seq<char>) -> Option<AttributeType>
    decreases streams.len(),
{
    if streams.len() == 0 {
        None
    } else {
        match column_type(cat, streams[0], column) {
            Some(t) => Some(t),
            None => first_column_type(cat, streams.drop_first(), column),
        }
    }
}

/// The type of a column reference.
pub open spec fn variable_type(cat: SqlCatalog, streams: Seq<Seq<char>>, v: Variable) -> Option<AttributeType> {
    match v.stream_id {
        Some(s) => column_type(cat, s@, v.attribute_name@),
        None => first_column_type(cat, streams, v.attribute_name@),
    }
}

/// The type of arithmetic on two operands: both numeric, the one of higher precedence.
pub open spec fn arithmetic_type(l: Option<AttributeType>, r: Option<AttributeType>) -> Option<AttributeType> {
    match (l, r) {
        (Some(a), Some(b)) => if is_numeric_spec(a) && is_numeric_spec(b) {
            Some(if precedence(a) >= precedence(b) { a } else { b })
        } else {
            None
        },
        _ => None,
    }
}

/// The fewest arguments a known function takes; `None` for unknown functions.
pub open spec fn min_args(name: Seq<char>) -> Option<nat> {
    if name == "count"@ || name == "concat"@ {
        Some(0)
    } else if name == "sum"@ || name == "avg"@ || name == "min"@ || name == "max"@ || name == "round"@
        || name == "abs"@ || name == "upper"@ || name == "lower"@ || name == "length"@ {
        Some(1)
    } else {
        None
    }
}

/// The result type of a known function with enough arguments of these types.
pub open spec fn signature_result(name: Seq<char>, args: Seq<AttributeType>) -> Option<AttributeType> {
    if name == "count"@ {
        Some(AttributeType::LONG)
    } else if name == "concat"@ {
        Some(AttributeType::STRING)
    } else if name == "sum"@ {
        if args[0] == AttributeType::INT || args[0] == AttributeType::LONG {
            Some(AttributeType::LONG)
        } else if args[0] == AttributeType::FLOAT || args[0] == AttributeType::DOUBLE {
            Some(AttributeType::DOUBLE)
        } else {
            None
        }
    } else if name == "avg"@ {
        if is_numeric_spec(args[0]) { Some(AttributeType::DOUBLE) } else { None }
    } else if name == "min"@ || name == "max"@ {
        Some(args[0])
    } else if name == "round"@ {
        if args[0] == AttributeType::FLOAT || args[0] == AttributeType::DOUBLE {
            Some(AttributeType::DOUBLE)
        } else if args[0] == AttributeType::INT || args[0] == AttributeType::LONG {
            Some(AttributeType::LONG)
        } else {
            None
        }
    } else if name == "abs"@ {
        if is_numeric_spec(args[0]) { Some(args[0]) } else { None }
    } else if name == "upper"@ || name == "lower"@ {
        if args[0] == AttributeType::STRING { Some(AttributeType::STRING) } else { None }
    } else {
        if args[0] == AttributeType::STRING { Some(AttributeType::INT) } else { None }
    }
}

/// The type of a call of `name` (already lowercased) with arguments of these types:
/// unknown functions give OBJECT.
pub open spec fn function_type(name: Seq<char>, args: Seq<AttributeType>) -> Option<AttributeType> {
    match min_args(name) {
        None => Some(AttributeType::OBJECT),
        Some(m) => if args.len() < m { None } else { signature_result(name, args) },
    }
}

/// The first type that is not OBJECT, if any.
pub open spec fn first_non_object(ts: Seq<AttributeType>) -> Option<AttributeType>
    decreases ts.len(),
{
    if ts.len() == 0 {
        None
    } else if ts[0] != AttributeType::OBJECT {
        Some(ts[0])
    } else {
        first_non_object(ts.drop_first())
    }
}

/// The type of a CASE whose branches have types `whens` and `els`: the first
/// branch type that is not OBJECT (NULL), if every branch has that type or OBJECT.
pub open spec fn case_type(whens: Seq<AttributeType>, els: AttributeType) -> Option<AttributeType> {
    let rt = match first_non_object(whens) {
        Some(t) => t,
        None => els,
    };
    if (forall|i: int| 0 <= i < whens.len() ==> whens[i] == rt || whens[i] == AttributeType::OBJECT)
        && (els == rt || els == AttributeType::OBJECT) {
        Some(rt)
    } else {
        None
    }
}

/// The inferred type of an expression; `None` when it is ill-typed.
pub open spec fn infer_spec(cat: SqlCatalog, streams: Seq<Seq<char>>, e: Expression) -> Option<AttributeType>
    decreases e, 0nat,
{
    match e {
        Expression::Constant(c) => Some(constant_type(c)),
        Expression::Variable(v) => variable_type(cat, streams, v),
        Expression::Add(l, r) => arithmetic_type(infer_spec(cat, streams, *l), infer_spec(cat, streams, *r)),
        Expression::Subtract(l, r) => arithmetic_type(infer_spec(cat, streams, *l), infer_spec(cat, streams, *r)),
        Expression::Multiply(l, r) => arithmetic_type(infer_spec(cat, streams, *l), infer_spec(cat, streams, *r)),
        Expression::Divide(l, r) => arithmetic_type(infer_spec(cat, streams, *l), infer_spec(cat, streams, *r)),
        Expression::Mod(l, r) => arithmetic_type(infer_spec(cat, streams, *l), infer_spec(cat, streams, *r)),
        Expression::Compare(_, _, _) => Some(AttributeType::BOOL),
        Expression::And(_, _) => Some(AttributeType::BOOL),
        Expression::Or(_, _) => Some(AttributeType::BOOL),
        Expression::Not(_) => Some(AttributeType::BOOL),
        Expression::IsNull(_) => Some(AttributeType::BOOL),
        Expression::In(_, _) => Some(AttributeType::BOOL),
        Expression::AttributeFunction(f) => match infer_all(cat, streams, f.parameters@) {
            Some(args) => function_type(lowercase(f.function_name@), args),
            None => None,
        },
        Expression::Case(c) => if c.when_clauses@.len() == 0 {
            None
        } else {
            match (infer_results(cat, streams, c.when_clauses@), infer_spec(cat, streams, *c.else_result)) {
                (Some(ws), Some(et)) => case_type(ws, et),
                _ => None,
            }
        },
    }
}

/// The types of all expressions, or `None` when one is ill-typed.
pub open spec fn infer_all(cat: SqlCatalog, streams: Seq<Seq<char>>, es: Seq<Expression>) -> Option<Seq<AttributeType>>
    decreases es, es.len(),
{
    if es.len() == 0 {
        Some(Seq::empty())
    } else {
        match (infer_all(cat, streams, es.drop_last()), infer_spec(cat, streams, es.last())) {
            (Some(ts), Some(t)) => Some(ts.push(t)),
            _ => None,
        }
    }
}

/// The types of all WHEN results, or `None` when one is ill-typed.
pub open spec fn infer_results(cat: SqlCatalog, streams: Seq<Seq<char>>, ws: Seq<WhenClause>) -> Option<Seq<AttributeType>>
    decreases ws, ws.len(),
{
    if ws.len() == 0 {
        Some(Seq::empty())
    } else {
        match (infer_results(cat, streams, ws.drop_last()), infer_spec(cat, streams, *ws.last().result)) {
            (Some(ts), Some(t)) => Some(ts.push(t)),
            _ => None,
        }
    }
}


/// The type of `sum(e)` follows the type of `e`: a sum of integers (`INT`,
/// `LONG`) is a `LONG`, a sum of floating-point values (`FLOAT`, `DOUBLE`) a
/// `DOUBLE`, and anything else cannot be summed; so a sum is floating point
/// exactly when its argument is, and never narrower than it.
pub proof fn law_sum_type_follows_argument(cat: SqlCatalog, streams: Seq<Seq<char>>, f: AttributeFunction, t: AttributeType)
    requires
        lowercase(f.function_name@) == "sum"@,
        f.parameters@.len() == 1,
        infer_spec(cat, streams, f.parameters@[0]) == Some(t),
    ensures
        (t == AttributeType::FLOAT || t == AttributeType::DOUBLE)
            ==> infer_spec(cat, streams, Expression::AttributeFunction(f)) == Some(AttributeType::DOUBLE),
        (t == AttributeType::INT || t == AttributeType::LONG)
            ==> infer_spec(cat, streams, Expression::AttributeFunction(f)) == Some(AttributeType::LONG),
        !is_numeric_spec(t) ==> infer_spec(cat, streams, Expression::AttributeFunction(f)) is None,
        infer_spec(cat, streams, Expression::AttributeFunction(f)) matches Some(s) ==> is_numeric_spec(s)
            && precedence(s) >= precedence(t) && (precedence(s) >= 3 <==> precedence(t) >= 3),
{
    lemma_infer_all(cat, streams, f.parameters@);
    let ts = infer_all(cat, streams, f.parameters@)->0;
    assert(ts[0] == t);
    assert(min_args("sum"@) == Some(1nat)) by {
        reveal_strlit("sum");
        reveal_strlit("count");
        reveal_strlit("concat");
        assert("sum"@.len() == 3 && "count"@.len() == 5 && "concat"@.len() == 6);
        assert("sum"@ != "count"@ && "sum"@ != "concat"@);
    }
}

pub proof fn lemma_infer_all(cat: SqlCatalog, streams: Seq<Seq<char>>, es: Seq<Expression>)
    ensures
        infer_all(cat, streams, es) is Some <==> (forall|j: int| 0 <= j < es.len() ==> infer_spec(cat, streams, #[trigger] es[j]) is Some),
        infer_all(cat, streams, es) matches Some(ts) ==> ts.len() == es.len()
            && forall|j: int| 0 <= j < es.len() ==> infer_spec(cat, streams, #[trigger] es[j]) == Some(ts[j]),
    decreases es.len(),
{
    if es.len() > 0 {
        let t = es.drop_last();
        lemma_infer_all(cat, streams, t);
        assert forall|j: int| 0 <= j < t.len() implies t[j] == es[j] by {}
        if infer_all(cat, streams, es) is None {
            if infer_all(cat, streams, t) is None {
                let j = choose|j: int| 0 <= j < t.len() && !(infer_spec(cat, streams, #[trigger] t[j]) is Some);
                assert(infer_spec(cat, streams, es[j]) is None);
            } else {
                assert(infer_spec(cat, streams, es[es.len() - 1]) is None);
            }
        }
    }
}

pub proof fn lemma_infer_results(cat: SqlCatalog, streams: Seq<Seq<char>>, ws: Seq<WhenClause>)
    ensures
        infer_results(cat, streams, ws) is Some <==> (forall|j: int| 0 <= j < ws.len() ==> infer_spec(cat, streams, *(#[trigger] ws[j]).result) is Some),
        infer_results(cat, streams, ws) matches Some(ts) ==> ts.len() == ws.len()
            && forall|j: int| 0 <= j < ws.len() ==> infer_spec(cat, streams, *(#[trigger] ws[j]).result) == Some(ts[j]),
    decreases ws.len(),
{
    if ws.len() > 0 {
        let t = ws.drop_last();
        lemma_infer_results(cat, streams, t);
        assert forall|j: int| 0 <= j < t.len() implies t[j] == ws[j] by {}
        if infer_results(cat, streams, ws) is None {
            if infer_results(cat, streams, t) is None {
                let j = choose|j: int| 0 <= j < t.len() && !(infer_spec(cat, streams, *(#[trigger] t[j]).result) is Some);
                assert(infer_spec(cat, streams, *ws[j].result) is None);
            } else {
                assert(infer_spec(cat, streams, *ws[ws.len() - 1].result) is None);
            }
        }
    }
}

pub proof fn lemma_first_non_object(ts: Seq<AttributeType>, k: int)
    requires
        0 <= k <= ts.len(),
        forall|j: int| 0 <= j < k ==> ts[j] == AttributeType::OBJECT,
    ensures
        k < ts.len() && ts[k] != AttributeType::OBJECT ==> first_non_object(ts) == Some(ts[k]),
        k == ts.len() ==> first_non_object(ts) is None,
    decreases k,
{
    if k > 0 {
        assert forall|j: int| 0 <= j < k - 1 implies ts.drop_first()[j] == AttributeType::OBJECT by {
            assert(ts.drop_first()[j] == ts[j + 1]);
        }
        lemma_first_non_object(ts.drop_first(), k - 1);
    }
}

/// The result type a CASE would have, when all its branches are well-typed.
pub open spec fn case_result_type(cat: SqlCatalog, streams: Seq<Seq<char>>, c: Case) -> Option<AttributeType> {
    match (infer_results(cat, streams, c.when_clauses@), infer_spec(cat, streams, *c.else_result)) {
        (Some(ts), Some(et)) => Some(match first_non_object(ts) {
            Some(t) => t,
            None => et,
        }),
        _ => None,
    }
}

// ---------------------------------------------------------------------------
// Error messages
// ---------------------------------------------------------------------------

/// The message for a column that cannot be found.
pub open spec fn variable_error(v: Variable) -> Seq<char> {
    match v.stream_id {
        Some(s) => "Column "@ + s@ + "."@ + v.attribute_name@ + " not found"@,
        None => "Column '"@ + v.attribute_name@ + "' not found in available streams"@,
    }
}

/// The message of ill-typed arithmetic on `l` and `r`, given the messages
/// of the operands: the left operand's, the right one's, or the types'.
pub open spec fn arith_message(cat: SqlCatalog, streams: Seq<Seq<char>>, l: Expression, r: Expression, le: Seq<char>, re: Seq<char>) -> Seq<char> {
    match (infer_spec(cat, streams, l), infer_spec(cat, streams, r)) {
        (None, _) => le,
        (_, None) => re,
        (Some(a), Some(b)) => "Cannot perform arithmetic on "@ + attr_type_label(a) + " and "@ + attr_type_label(b),
    }
}

/// The message for arguments of the wrong type.
pub open spec fn signature_message(name: Seq<char>) -> Seq<char> {
    if name == "sum"@ {
        "SUM requires numeric argument"@
    } else if name == "avg"@ {
        "AVG requires numeric argument"@
    } else if name == "round"@ {
        "ROUND requires numeric argument"@
    } else if name == "abs"@ {
        "ABS requires numeric argument"@
    } else if name == "upper"@ {
        "UPPER requires STRING argument"@
    } else if name == "lower"@ {
        "LOWER requires STRING argument"@
    } else {
        "LENGTH requires STRING argument"@
    }
}

/// The first expression of `es` from index `i` on that is ill-typed.
pub open spec fn first_ill_typed(cat: SqlCatalog, streams: Seq<Seq<char>>, es: Seq<Expression>, i: int) -> Option<int>
    decreases es.len() - i,
{
    if i < 0 || i >= es.len() {
        None
    } else if infer_spec(cat, streams, es[i]) is None {
        Some(i)
    } else {
        first_ill_typed(cat, streams, es, i + 1)
    }
}

/// The message of an ill-typed function call, given its parameters'
/// messages: the first ill-typed parameter's, too few arguments, or
/// arguments of the wrong type.
pub open spec fn function_message(cat: SqlCatalog, streams: Seq<Seq<char>>, f: AttributeFunction, perrs: Seq<Seq<char>>) -> Seq<char> {
    match first_ill_typed(cat, streams, f.parameters@, 0) {
        Some(j) => perrs[j],
        None => {
            let n = f.parameters@.len();
            let name = lowercase(f.function_name@);
            match min_args(name) {
                Some(m) => if n < m {
                    uppercase(name) + " requires at least "@ + int_text(m as int) + " argument(s), found "@ + int_text(n as int)
                } else {
                    signature_message(name)
                },
                None => Seq::empty(),
            }
        },
    }
}

/// The first WHEN from index `i` on whose result is ill-typed or of a type
/// other than OBJECT.
pub open spec fn first_decisive_when(cat: SqlCatalog, streams: Seq<Seq<char>>, ws: Seq<WhenClause>, i: int) -> Option<int>
    decreases ws.len() - i,
{
    if i < 0 || i >= ws.len() {
        None
    } else if infer_spec(cat, streams, *ws[i].result) != Some(AttributeType::OBJECT) {
        Some(i)
    } else {
        first_decisive_when(cat, streams, ws, i + 1)
    }
}

/// The first WHEN from index `i` on whose result is ill-typed or of a type
/// other than `rt` and OBJECT.
pub open spec fn first_bad_when(cat: SqlCatalog, streams: Seq<Seq<char>>, ws: Seq<WhenClause>, rt: AttributeType, i: int) -> Option<int>
    decreases ws.len() - i,
{
    if i < 0 || i >= ws.len() {
        None
    } else if !(infer_spec(cat, streams, *ws[i].result) matches Some(t) && (t == rt || t == AttributeType::OBJECT)) {
        Some(i)
    } else {
        first_bad_when(cat, streams, ws, rt, i + 1)
    }
}

/// The message of an ill-typed CASE, given its WHEN results' and ELSE
/// messages. The result type is the first WHEN result type other than
/// OBJECT (else the ELSE type); an ill-typed branch met before it is
/// decided is reported first, then the first branch that disagrees.
pub open spec fn case_message(cat: SqlCatalog, streams: Seq<Seq<char>>, c: Case, werrs: Seq<Seq<char>>, eerr: Seq<char>) -> Seq<char> {
    let ws = c.when_clauses@;
    let et = infer_spec(cat, streams, *c.else_result);
    if ws.len() == 0 {
        "CASE expression must have at least one WHEN clause"@
    } else {
        let decisive = first_decisive_when(cat, streams, ws, 0);
        let early: Option<Seq<char>> = match decisive {
            Some(k) => if infer_spec(cat, streams, *ws[k].result) is None { Some(werrs[k]) } else { None },
            None => if et is None { Some(eerr) } else { None },
        };
        match early {
            Some(m) => m,
            None => {
                let rt = match decisive {
                    Some(k) => infer_spec(cat, streams, *ws[k].result)->0,
                    None => et->0,
                };
                match first_bad_when(cat, streams, ws, rt, 0) {
                    Some(k) => match infer_spec(cat, streams, *ws[k].result) {
                        Some(t) => "CASE expression type mismatch: WHEN clause "@ + int_text(k + 1) + " returns "@
                            + attr_type_label(t) + ", expected "@ + attr_type_label(rt),
                        None => werrs[k],
                    },
                    None => match et {
                        Some(t) => "CASE expression type mismatch: ELSE clause returns "@ + attr_type_label(t)
                            + ", expected "@ + attr_type_label(rt),
                        None => eerr,
                    },
                }
            },
        }
    }
}

/// The message of the error that inferring the type of `e` reports, when
/// `e` is ill-typed: the first problem met, left to right.
pub open spec fn infer_error(cat: SqlCatalog, streams: Seq<Seq<char>>, e: Expression) -> Seq<char>
    decreases e, 0nat,
{
    match e {
        Expression::Variable(v) => variable_error(v),
        Expression::Add(l, r) => arith_message(cat, streams, *l, *r, infer_error(cat, streams, *l), infer_error(cat, streams, *r)),
        Expression::Subtract(l, r) => arith_message(cat, streams, *l, *r, infer_error(cat, streams, *l), infer_error(cat, streams, *r)),
        Expression::Multiply(l, r) => arith_message(cat, streams, *l, *r, infer_error(cat, streams, *l), infer_error(cat, streams, *r)),
        Expression::Divide(l, r) => arith_message(cat, streams, *l, *r, infer_error(cat, streams, *l), infer_error(cat, streams, *r)),
        Expression::Mod(l, r) => arith_message(cat, streams, *l, *r, infer_error(cat, streams, *l), infer_error(cat, streams, *r)),
        Expression::AttributeFunction(f) => function_message(cat, streams, f, infer_errors(cat, streams, f.parameters@)),
        Expression::Case(c) => case_message(cat, streams, *c, when_errors(cat, streams, c.when_clauses@), infer_error(cat, streams, *c.else_result)),
        _ => Seq::empty(),
    }
}

/// The messages `infer_error` gives for each expression.
pub open spec fn infer_errors(cat: SqlCatalog, streams: Seq<Seq<char>>, es: Seq<Expression>) -> Seq<Seq<char>>
    decreases es, es.len(),
{
    if es.len() == 0 {
        Seq::empty()
    } else {
        infer_errors(cat, streams, es.drop_last()).push(infer_error(cat, streams, es.last()))
    }
}

/// The messages `infer_error` gives for each WHEN result.
pub open spec fn when_errors(cat: SqlCatalog, streams: Seq<Seq<char>>, ws: Seq<WhenClause>) -> Seq<Seq<char>>
    decreases ws, ws.len(),
{
    if ws.len() == 0 {
        Seq::empty()
    } else {
        when_errors(cat, streams, ws.drop_last()).push(infer_error(cat, streams, *ws.last().result))
    }
}

pub proof fn lemma_infer_errors(cat: SqlCatalog, streams: Seq<Seq<char>>, es: Seq<Expression>)
    ensures
        infer_errors(cat, streams, es).len() == es.len(),
        forall|j: int| 0 <= j < es.len() ==> #[trigger] infer_errors(cat, streams, es)[j] == infer_error(cat, streams, es[j]),
    decreases es.len(),
{
    if es.len() > 0 {
        lemma_infer_errors(cat, streams, es.drop_last());
        assert forall|j: int| 0 <= j < es.len() implies #[trigger] infer_errors(cat, streams, es)[j] == infer_error(cat, streams, es[j]) by {
            if j < es.len() - 1 {
                assert(es.drop_last()[j] == es[j]);
            }
        }
    }
}

pub proof fn lemma_when_errors(cat: SqlCatalog, streams: Seq<Seq<char>>, ws: Seq<WhenClause>)
    ensures
        when_errors(cat, streams, ws).len() == ws.len(),
        forall|j: int| 0 <= j < ws.len() ==> #[trigger] when_errors(cat, streams, ws)[j] == infer_error(cat, streams, *ws[j].result),
    decreases ws.len(),
{
    if ws.len() > 0 {
        lemma_when_errors(cat, streams, ws.drop_last());
        assert forall|j: int| 0 <= j < ws.len() implies #[trigger] when_errors(cat, streams, ws)[j] == infer_error(cat, streams, *ws[j].result) by {
            if j < ws.len() - 1 {
                assert(ws.drop_last()[j] == ws[j]);
            }
        }
    }
}

/// The name `{:?}` gives an attribute type.
pub open spec fn attr_type_label(t: AttributeType) -> Seq<char> {
    match t {
        AttributeType::STRING => "STRING"@,
        AttributeType::INT => "INT"@,
        AttributeType::LONG => "LONG"@,
        AttributeType::FLOAT => "FLOAT"@,
        AttributeType::DOUBLE => "DOUBLE"@,
        AttributeType::BOOL => "BOOL"@,
        AttributeType::OBJECT => "OBJECT"@,
    }
}

/// The name `{:?}` gives an attribute type.
pub fn attr_type_text(t: AttributeType) -> (r: &'static str)
    ensures
        r@ == attr_type_label(t),
{
    match t {
        AttributeType::STRING => "STRING",
        AttributeType::INT => "INT",
        AttributeType::LONG => "LONG",
        AttributeType::FLOAT => "FLOAT",
        AttributeType::DOUBLE => "DOUBLE",
        AttributeType::BOOL => "BOOL",
        AttributeType::OBJECT => "OBJECT",
    }
}

fn fail(message: String) -> (r: TypeError)
    ensures
        r == TypeError::ConversionFailed(message),
{
    TypeError::ConversionFailed(message)
}

fn min_args_of(name: &str) -> (r: Option<usize>)
    ensures
        r matches Some(m) ==> min_args(name@) == Some(m as nat),
        r is None ==> min_args(name@) is None,
{
    if str_eq(name, "count") || str_eq(name, "concat") {
        Some(0)
    } else if str_eq(name, "sum") || str_eq(name, "avg") || str_eq(name, "min") || str_eq(name, "max")
        || str_eq(name, "round") || str_eq(name, "abs") || str_eq(name, "upper") || str_eq(name, "lower")
        || str_eq(name, "length") {
        Some(1)
    } else {
        None
    }
}

fn signature_result_of(name: &str, args: &Vec<AttributeType>) -> (r: Result<AttributeType, TypeError>)
    requires
        min_args(name@) is Some,
        args@.len() >= min_args(name@)->0,
    ensures
        r matches Ok(t) ==> signature_result(name@, args@) == Some(t),
        r is Err ==> signature_result(name@, args@) is None,
        r matches Err(TypeError::ConversionFailed(m)) ==> m@ == signature_message(name@),
{
    if str_eq(name, "count") {
        Ok(AttributeType::LONG)
    } else if str_eq(name, "concat") {
        Ok(AttributeType::STRING)
    } else if str_eq(name, "sum") {
        let a = args[0];
        if a == AttributeType::INT || a == AttributeType::LONG {
            Ok(AttributeType::LONG)
        } else if a == AttributeType::FLOAT || a == AttributeType::DOUBLE {
            Ok(AttributeType::DOUBLE)
        } else {
            Err(fail(owned("SUM requires numeric argument")))
        }
    } else if str_eq(name, "avg") {
        if is_numeric(args[0]) { Ok(AttributeType::DOUBLE) } else { Err(fail(owned("AVG requires numeric argument"))) }
    } else if str_eq(name, "min") || str_eq(name, "max") {
        Ok(args[0])
    } else if str_eq(name, "round") {
        let a = args[0];
        if a == AttributeType::FLOAT || a == AttributeType::DOUBLE {
            Ok(AttributeType::DOUBLE)
        } else if a == AttributeType::INT || a == AttributeType::LONG {
            Ok(AttributeType::LONG)
        } else {
            Err(fail(owned("ROUND requires numeric argument")))
        }
    } else if str_eq(name, "abs") {
        if is_numeric(args[0]) { Ok(args[0]) } else { Err(fail(owned("ABS requires numeric argument"))) }
    } else if str_eq(name, "upper") {
        if args[0] == AttributeType::STRING { Ok(AttributeType::STRING) } else { Err(fail(owned("UPPER requires STRING argument"))) }
    } else if str_eq(name, "lower") {
        if args[0] == AttributeType::STRING { Ok(AttributeType::STRING) } else { Err(fail(owned("LOWER requires STRING argument"))) }
    } else {
        if args[0] == AttributeType::STRING { Ok(AttributeType::INT) } else { Err(fail(owned("LENGTH requires STRING argument"))) }
    }
}

/// The hint given when a clause's condition of type `t` is not boolean.
pub open spec fn boolean_hint(e: Expression, t: AttributeType) -> Seq<char> {
    match e {
        Expression::Variable(_) => if is_numeric_spec(t) {
            "Did you mean to use a comparison? Try adding '> 0' or '!= 0'"@
        } else {
            "Expected BOOL expression, found "@ + attr_type_label(t)
        },
        Expression::Add(_, _) | Expression::Subtract(_, _) | Expression::Multiply(_, _) | Expression::Divide(_, _) =>
            "Arithmetic expressions must be compared: try '(...) > 0'"@,
        Expression::AttributeFunction(f) => "Function '"@ + f.function_name@ + "' returns "@ + attr_type_label(t) + ", not BOOL - use a comparison"@,
        _ => "Expected BOOL expression, found "@ + attr_type_label(t),
    }
}

/// The message when the condition `e` of clause `clause` is not boolean:
/// its inference error, or its type with a hint.
pub open spec fn boolean_error(cat: SqlCatalog, streams: Seq<Seq<char>>, e: Expression, clause: Seq<char>) -> Seq<char> {
    match infer_spec(cat, streams, e) {
        None => infer_error(cat, streams, e),
        Some(t) => clause + " clause must return BOOL type, found "@ + attr_type_label(t) + ". Hint: "@ + boolean_hint(e, t),
    }
}

/// Infers the types of expressions against a catalog.
pub struct TypeInferenceEngine<'a> {
    pub catalog: &'a SqlCatalog,
}

impl<'a> TypeInferenceEngine<'a> {
    pub fn new(catalog: &'a SqlCatalog) -> (r: Self)
        ensures
            *r.catalog == *catalog,
    {
        TypeInferenceEngine { catalog }
    }

    /// The type of a constant.
    pub fn infer_constant_type(constant: &Constant) -> (r: Result<AttributeType, TypeError>)
        ensures
            r == Ok::<AttributeType, TypeError>(constant_type(*constant)),
    {
        Ok(match &constant.value {
            ConstantValue::Int(_) => AttributeType::INT,
            ConstantValue::Long(_) => AttributeType::LONG,
            ConstantValue::Time(_) => AttributeType::LONG,
            ConstantValue::Float(_) => AttributeType::FLOAT,
            ConstantValue::Double(_) => AttributeType::DOUBLE,
            ConstantValue::String(_) => AttributeType::STRING,
            ConstantValue::Bool(_) => AttributeType::BOOL,
            ConstantValue::Null => AttributeType::OBJECT,
        })
    }

    /// The type of a column reference: a qualified one in its stream, an
    /// unqualified one in the first stream of the context that has it.
    pub fn infer_variable_type(&self, variable: &Variable, context: &TypeContext) -> (r: Result<AttributeType, TypeError>)
        ensures
            r matches Ok(t) ==> variable_type(*self.catalog, string_views(context.available_streams@), *variable) == Some(t),
            r is Err ==> variable_type(*self.catalog, string_views(context.available_streams@), *variable) is None,
            r matches Err(TypeError::ConversionFailed(m)) ==> m@ == variable_error(*variable),
    {
        let attr_name = variable.get_attribute_name();
        match variable.get_stream_id() {
            Some(stream_id) => {
                return match self.catalog.get_column_type(stream_id, attr_name) {
                    Ok(t) => Ok(t),
                    Err(_) => {
                        let a = concat("Column ", stream_id);
                        let b = concat(a.as_str(), ".");
                        let c = concat(b.as_str(), attr_name);
                        Err(fail(concat(c.as_str(), " not found")))
                    },
                };
            },
            None => {},
        }
        let ghost sv = string_views(context.available_streams@);
        proof {
            assert(sv.subrange(0, sv.len() as int) =~= sv);
        }
        let mut i: usize = 0;
        while i < context.available_streams.len()
            invariant
                i <= context.available_streams@.len(),
                sv == string_views(context.available_streams@),
                variable.stream_id is None,
                attr_name@ == variable.attribute_name@,
                first_column_type(*self.catalog, sv, attr_name@) == first_column_type(*self.catalog, sv.subrange(i as int, sv.len() as int), attr_name@),
            decreases context.available_streams@.len() - i,
        {
            let ghost rest = sv.subrange(i as int, sv.len() as int);
            proof {
                assert(rest[0] == context.available_streams@[i as int]@);
                assert(rest.drop_first() =~= sv.subrange(i + 1, sv.len() as int));
            }
            match self.catalog.get_column_type(context.available_streams[i].as_str(), attr_name) {
                Ok(t) => {
                    proof {
                        assert(column_type(*self.catalog, rest[0], attr_name@) == Some(t));
                        assert(first_column_type(*self.catalog, rest, attr_name@) == Some(t));
                    }
                    return Ok(t);
                },
                Err(_) => {},
            }
            i = i + 1;
        }
        proof {
            assert(sv.subrange(i as int, sv.len() as int).len() == 0);
        }
        let a = concat("Column '", attr_name);
        Err(fail(concat(a.as_str(), "' not found in available streams")))
    }

    fn infer_arithmetic_type(&self, expr: &Expression, context: &TypeContext) -> (r: Result<AttributeType, TypeError>)
        requires
            *expr is Add || *expr is Subtract || *expr is Multiply || *expr is Divide || *expr is Mod,
        ensures
            r matches Ok(t) ==> infer_spec(*self.catalog, string_views(context.available_streams@), *expr) == Some(t),
            r is Err ==> infer_spec(*self.catalog, string_views(context.available_streams@), *expr) is None,
            r matches Err(TypeError::ConversionFailed(m)) ==> m@ == infer_error(*self.catalog, string_views(context.available_streams@), *expr),
        decreases *expr, 0nat,
    {
        let (left, right) = match expr {
            Expression::Add(l, r) => (l, r),
            Expression::Subtract(l, r) => (l, r),
            Expression::Multiply(l, r) => (l, r),
            Expression::Divide(l, r) => (l, r),
            Expression::Mod(l, r) => (l, r),
            _ => {
                proof {
                    assert(false);
                }
                return Err(fail(owned("not an arithmetic expression")));
            },
        };
        let left_type = match self.infer_type(left, context) {
            Ok(t) => t,
            Err(e) => {
                return Err(e);
            },
        };
        let right_type = match self.infer_type(right, context) {
            Ok(t) => t,
            Err(e) => {
                return Err(e);
            },
        };
        if !is_numeric(left_type) || !is_numeric(right_type) {
            let a = concat("Cannot perform arithmetic on ", attr_type_text(left_type));
            let b = concat(a.as_str(), " and ");
            return Err(fail(concat(b.as_str(), attr_type_text(right_type))));
        }
        Ok(if type_precedence(left_type) >= type_precedence(right_type) { left_type } else { right_type })
    }

    /// The inferred type of an expression, or an error when it is ill-typed.
    pub fn infer_type(&self, expr: &Expression, context: &TypeContext) -> (r: Result<AttributeType, TypeError>)
        ensures
            r matches Ok(t) ==> infer_spec(*self.catalog, string_views(context.available_streams@), *expr) == Some(t),
            r is Err ==> infer_spec(*self.catalog, string_views(context.available_streams@), *expr) is None,
            r matches Err(TypeError::ConversionFailed(m)) ==> m@ == infer_error(*self.catalog, string_views(context.available_streams@), *expr),
        decreases *expr, 1nat,
    {
        let ghost cat = *self.catalog;
        let ghost sv = string_views(context.available_streams@);
        match expr {
            Expression::Constant(c) => Self::infer_constant_type(c),
            Expression::Variable(v) => self.infer_variable_type(v, context),
            Expression::Add(_, _) => self.infer_arithmetic_type(expr, context),
            Expression::Subtract(_, _) => self.infer_arithmetic_type(expr, context),
            Expression::Multiply(_, _) => self.infer_arithmetic_type(expr, context),
            Expression::Divide(_, _) => self.infer_arithmetic_type(expr, context),
            Expression::Mod(_, _) => self.infer_arithmetic_type(expr, context),
            Expression::Compare(_, _, _) | Expression::And(_, _) | Expression::Or(_, _) | Expression::Not(_)
            | Expression::IsNull(_) | Expression::In(_, _) => Ok(AttributeType::BOOL),
            Expression::AttributeFunction(func) => {
                let func_name = to_lowercase(func.function_name.as_str());
                let mut param_types: Vec<AttributeType> = Vec::new();
                let mut i: usize = 0;
                while i < func.parameters.len()
                    invariant
                        i <= func.parameters@.len(),
                        *expr == Expression::AttributeFunction(*func),
                        cat == *self.catalog,
                        sv == string_views(context.available_streams@),
                        infer_all(cat, sv, func.parameters@.subrange(0, i as int)) == Some(param_types@),
                        first_ill_typed(cat, sv, func.parameters@, 0) == first_ill_typed(cat, sv, func.parameters@, i as int),
                    decreases func.parameters@.len() - i,
                {
                    proof {
                        assert(decreases_to!(*expr => func.parameters@[i as int]));
                    }
                    let t = match self.infer_type(&func.parameters[i], context) {
                        Ok(t) => t,
                        Err(e) => {
                            proof {
                                lemma_infer_all(cat, sv, func.parameters@);
                                assert(infer_spec(cat, sv, func.parameters@[i as int]) is None);
                                assert(first_ill_typed(cat, sv, func.parameters@, i as int) == Some(i as int));
                                lemma_infer_errors(cat, sv, func.parameters@);
                            }
                            return Err(e);
                        },
                    };
                    proof {
                        let next = func.parameters@.subrange(0, i + 1);
                        assert(next.drop_last() =~= func.parameters@.subrange(0, i as int));
                        assert(next.last() == func.parameters@[i as int]);
                    }
                    param_types.push(t);
                    proof {
                        assert(first_ill_typed(cat, sv, func.parameters@, i as int) == first_ill_typed(cat, sv, func.parameters@, i + 1));
                    }
                    i = i + 1;
                }
                proof {
                    assert(func.parameters@.subrange(0, i as int) =~= func.parameters@);
                    assert(first_ill_typed(cat, sv, func.parameters@, 0) is None);
                    lemma_infer_all(cat, sv, func.parameters@);
                }
                match min_args_of(func_name.as_str()) {
                    Some(m) => {
                        if param_types.len() < m {
                            let upper = to_uppercase(func_name.as_str());
                            let a = concat(upper.as_str(), " requires at least ");
                            let b = concat(a.as_str(), usize_to_string(m).as_str());
                            let c = concat(b.as_str(), " argument(s), found ");
                            return Err(fail(concat(c.as_str(), usize_to_string(param_types.len()).as_str())));
                        }
                        signature_result_of(func_name.as_str(), &param_types)
                    },
                    None => Ok(AttributeType::OBJECT),
                }
            },
            Expression::Case(case) => self.infer_case_type(expr, case, context),
        }
    }

    fn infer_case_type(&self, expr: &Expression, case: &Case, context: &TypeContext) -> (r: Result<AttributeType, TypeError>)
        requires
            *expr == Expression::Case(Box::new(*case)),
        ensures
            r matches Ok(t) ==> infer_spec(*self.catalog, string_views(context.available_streams@), *expr) == Some(t),
            r is Err ==> infer_spec(*self.catalog, string_views(context.available_streams@), *expr) is None,
            r matches Err(TypeError::ConversionFailed(m)) ==> m@ == infer_error(*self.catalog, string_views(context.available_streams@), *expr),
        decreases *expr, 0nat,
    {
        let ghost cat = *self.catalog;
        let ghost sv = string_views(context.available_streams@);
        let ghost ws = case.when_clauses@;
        if case.when_clauses.len() == 0 {
            return Err(fail(owned("CASE expression must have at least one WHEN clause")));
        }
        let mut result_type = AttributeType::OBJECT;
        let mut i: usize = 0;
        while i < case.when_clauses.len()
            invariant_except_break
                i <= ws.len(),
                ws == case.when_clauses@,
                cat == *self.catalog,
                sv == string_views(context.available_streams@),
                *expr == Expression::Case(Box::new(*case)),
                result_type == AttributeType::OBJECT,
                forall|j: int| 0 <= j < i ==> infer_spec(cat, sv, *(#[trigger] ws[j]).result) == Some(AttributeType::OBJECT),
                first_decisive_when(cat, sv, ws, 0) == first_decisive_when(cat, sv, ws, i as int),
            ensures
                ws == case.when_clauses@,
                cat == *self.catalog,
                sv == string_views(context.available_streams@),
                *expr == Expression::Case(Box::new(*case)),
                (result_type == AttributeType::OBJECT && forall|j: int| 0 <= j < ws.len() ==> infer_spec(cat, sv, *(#[trigger] ws[j]).result) == Some(AttributeType::OBJECT))
                || (exists|k: int| 0 <= k < ws.len() && infer_spec(cat, sv, *ws[k].result) == Some(result_type)
                    && result_type != AttributeType::OBJECT
                    && forall|j: int| 0 <= j < k ==> infer_spec(cat, sv, *(#[trigger] ws[j]).result) == Some(AttributeType::OBJECT)),
                (result_type == AttributeType::OBJECT && first_decisive_when(cat, sv, ws, 0) is None)
                || (result_type != AttributeType::OBJECT && (first_decisive_when(cat, sv, ws, 0) matches Some(k)
                    && infer_spec(cat, sv, *ws[k].result) == Some(result_type))),
            decreases ws.len() - i,
        {
            proof {
                assert(decreases_to!(*expr => *ws[i as int].result));
            }
            let when_type = match self.infer_type(&case.when_clauses[i].result, context) {
                Ok(t) => t,
                Err(e) => {
                    proof {
                        lemma_infer_results(cat, sv, ws);
                        lemma_when_errors(cat, sv, ws);
                        assert(first_decisive_when(cat, sv, ws, i as int) == Some(i as int));
                    }
                    return Err(e);
                },
            };
            if when_type != AttributeType::OBJECT {
                result_type = when_type;
                proof {
                    assert(first_decisive_when(cat, sv, ws, i as int) == Some(i as int));
                }
                break;
            }
            proof {
                assert(first_decisive_when(cat, sv, ws, i as int) == first_decisive_when(cat, sv, ws, i + 1));
            }
            i = i + 1;
        }
        proof {
            assert(decreases_to!(*expr => *case.else_result));
        }
        if result_type == AttributeType::OBJECT {
            let else_type = match self.infer_type(&case.else_result, context) {
                Ok(t) => t,
                Err(e) => {
                    proof {
                        lemma_when_errors(cat, sv, ws);
                    }
                    return Err(e);
                },
            };
            if else_type != AttributeType::OBJECT {
                result_type = else_type;
            }
        }
        proof {
            assert(match first_decisive_when(cat, sv, ws, 0) {
                Some(k) => infer_spec(cat, sv, *ws[k].result) == Some(result_type),
                None => infer_spec(cat, sv, *case.else_result) == Some(result_type),
            });
        }
        proof {
            lemma_infer_results(cat, sv, ws);
            if case_result_type(cat, sv, *case) is Some {
                let ts = infer_results(cat, sv, ws)->0;
                if exists|k2: int| 0 <= k2 < ws.len() && infer_spec(cat, sv, *ws[k2].result) == Some(result_type)
                    && result_type != AttributeType::OBJECT
                    && forall|j: int| 0 <= j < k2 ==> infer_spec(cat, sv, *(#[trigger] ws[j]).result) == Some(AttributeType::OBJECT) {
                    let k2 = choose|k2: int| 0 <= k2 < ws.len() && infer_spec(cat, sv, *ws[k2].result) == Some(result_type)
                        && result_type != AttributeType::OBJECT
                        && forall|j: int| 0 <= j < k2 ==> infer_spec(cat, sv, *(#[trigger] ws[j]).result) == Some(AttributeType::OBJECT);
                    assert forall|j: int| 0 <= j < k2 implies ts[j] == AttributeType::OBJECT by {
                        assert(infer_spec(cat, sv, *ws[j].result) == Some(ts[j]));
                    }
                    lemma_first_non_object(ts, k2);
                } else {
                    assert forall|j: int| 0 <= j < ts.len() implies ts[j] == AttributeType::OBJECT by {
                        assert(infer_spec(cat, sv, *ws[j].result) == Some(ts[j]));
                    }
                    lemma_first_non_object(ts, ts.len() as int);
                }
            }
        }
        let mut k: usize = 0;
        while k < case.when_clauses.len()
            invariant
                k <= ws.len(),
                case_result_type(cat, sv, *case) matches Some(x) ==> x == result_type,
                ws == case.when_clauses@,
                cat == *self.catalog,
                sv == string_views(context.available_streams@),
                *expr == Expression::Case(Box::new(*case)),
                forall|j: int| 0 <= j < k ==> (infer_spec(cat, sv, *(#[trigger] ws[j]).result) matches Some(t)
                    && (t == result_type || t == AttributeType::OBJECT)),
                first_bad_when(cat, sv, ws, result_type, 0) == first_bad_when(cat, sv, ws, result_type, k as int),
                ws.len() > 0,
                match first_decisive_when(cat, sv, ws, 0) {
                    Some(k1) => infer_spec(cat, sv, *ws[k1].result) == Some(result_type),
                    None => infer_spec(cat, sv, *case.else_result) == Some(result_type),
                },
            decreases ws.len() - k,
        {
            proof {
                assert(decreases_to!(*expr => *ws[k as int].result));
            }
            let when_type = match self.infer_type(&case.when_clauses[k].result, context) {
                Ok(t) => t,
                Err(e) => {
                    proof {
                        lemma_infer_results(cat, sv, ws);
                        lemma_when_errors(cat, sv, ws);
                        assert(first_bad_when(cat, sv, ws, result_type, k as int) == Some(k as int));
                    }
                    return Err(e);
                },
            };
            if when_type != result_type && when_type != AttributeType::OBJECT {
                proof {
                    assert(first_bad_when(cat, sv, ws, result_type, k as int) == Some(k as int));
                    lemma_infer_results(cat, sv, ws);
                    if infer_results(cat, sv, ws) is Some && infer_spec(cat, sv, *case.else_result) is Some {
                        let ts = infer_results(cat, sv, ws)->0;
                        assert(ts[k as int] == when_type);
                    }
                }
                let a = concat("CASE expression type mismatch: WHEN clause ", usize_to_string(k + 1).as_str());
                let b = concat(a.as_str(), " returns ");
                let c = concat(b.as_str(), attr_type_text(when_type));
                let d = concat(c.as_str(), ", expected ");
                return Err(fail(concat(d.as_str(), attr_type_text(result_type))));
            }
            proof {
                assert(first_bad_when(cat, sv, ws, result_type, k as int) == first_bad_when(cat, sv, ws, result_type, k + 1));
            }
            k = k + 1;
        }
        proof {
            assert(first_bad_when(cat, sv, ws, result_type, 0) is None);
        }
        let else_type = match self.infer_type(&case.else_result, context) {
            Ok(t) => t,
            Err(e) => {
                return Err(e);
            },
        };
        proof {
            lemma_infer_results(cat, sv, ws);
            let ts = infer_results(cat, sv, ws)->0;
            assert forall|j: int| 0 <= j < ts.len() implies ts[j] == result_type || ts[j] == AttributeType::OBJECT by {
                assert(infer_spec(cat, sv, *ws[j].result) == Some(ts[j]));
            }
        }
        if else_type != result_type && else_type != AttributeType::OBJECT {
            let a = concat("CASE expression type mismatch: ELSE clause returns ", attr_type_text(else_type));
            let b = concat(a.as_str(), ", expected ");
            return Err(fail(concat(b.as_str(), attr_type_text(result_type))));
        }
        Ok(result_type)
    }


    /// Checks that a clause's condition is boolean.
    pub fn validate_boolean_expression(&self, expr: &Expression, context: &TypeContext, clause_name: &str) -> (r: Result<(), TypeError>)
        ensures
            r is Ok <==> infer_spec(*self.catalog, string_views(context.available_streams@), *expr) == Some(AttributeType::BOOL),
            r matches Err(TypeError::ConversionFailed(m)) ==> m@ == boolean_error(*self.catalog, string_views(context.available_streams@), *expr, clause_name@),
    {
        let expr_type = match self.infer_type(expr, context) {
            Ok(t) => t,
            Err(e) => {
                return Err(e);
            },
        };
        if expr_type != AttributeType::BOOL {
            let hint = match expr {
                Expression::Variable(_) => {
                    if is_numeric(expr_type) {
                        owned("Did you mean to use a comparison? Try adding '> 0' or '!= 0'")
                    } else {
                        concat("Expected BOOL expression, found ", attr_type_text(expr_type))
                    }
                },
                Expression::Add(_, _) | Expression::Subtract(_, _) | Expression::Multiply(_, _) | Expression::Divide(_, _) => {
                    owned("Arithmetic expressions must be compared: try '(...) > 0'")
                },
                Expression::AttributeFunction(f) => {
                    let a = concat("Function '", f.function_name.as_str());
                    let b = concat(a.as_str(), "' returns ");
                    let c = concat(b.as_str(), attr_type_text(expr_type));
                    concat(c.as_str(), ", not BOOL - use a comparison")
                },
                _ => concat("Expected BOOL expression, found ", attr_type_text(expr_type)),
            };
            let a = concat(clause_name, " clause must return BOOL type, found ");
            let b = concat(a.as_str(), attr_type_text(expr_type));
            let c = concat(b.as_str(), ". Hint: ");
            return Err(fail(concat(c.as_str(), hint.as_str())));
        }
        Ok(())
    }

    /// The streams a query reads, with their aliases, as a type context.
    pub fn build_context_from_query(&self, query: &Query) -> (r: TypeContext)
        ensures
            string_views(r.available_streams@) == query_streams(*query),
    {
        let mut ids: Vec<String> = Vec::new();
        proof {
            assert(string_views(ids@) =~= Seq::<Seq<char>>::empty());
        }
        match &query.input_stream {
            Some(input) => {
                match input {
                    InputStream::Single(single) => {
                        collect_from_single_stream(single, &mut ids);
                    },
                    InputStream::Join(join) => {
                        collect_from_single_stream(&join.left_input_stream, &mut ids);
                        collect_from_single_stream(&join.right_input_stream, &mut ids);
                    },
                    InputStream::State(_) => {
                        let all = input.get_all_stream_ids();
                        let mut k: usize = 0;
                        while k < all.len()
                            invariant
                                k <= all@.len(),
                                string_views(ids@) == string_views(all@).subrange(0, k as int),
                            decreases all@.len() - k,
                        {
                            let ghost before = ids@;
                            let x = all[k].clone();
                            ids.push(x);
                            proof {
                                crate::property_map::lemma_string_views_push(before, x);
                                assert(string_views(all@).subrange(0, k + 1) =~= string_views(all@).subrange(0, k as int).push(all@[k as int]@));
                            }
                            k = k + 1;
                        }
                        proof {
                            assert(string_views(all@).subrange(0, k as int) =~= string_views(all@));
                        }
                    },
                }
            },
            None => {},
        }
        TypeContext::from_streams(ids)
    }

    /// Checks that the `WHERE` filters of a single-stream input and the
    /// `HAVING` condition are boolean.
    pub fn validate_query(&self, query: &Query) -> (r: Result<(), TypeError>)
        ensures
            r is Ok <==> query_conditions_boolean(*self.catalog, *query),
            r matches Err(TypeError::ConversionFailed(m)) ==> m@ == query_error(*self.catalog, *query),
    {
        let context = self.build_context_from_query(query);
        let ghost sv = query_streams(*query);
        match &query.input_stream {
            Some(InputStream::Single(single)) => {
                let handlers = single.get_stream_handlers();
                let mut i: usize = 0;
                while i < handlers.len()
                    invariant
                        i <= handlers@.len(),
                        handlers@ == single.stream_handlers@,
                        query.input_stream == Some(InputStream::Single(*single)),
                        string_views(context.available_streams@) == sv,
                        sv == query_streams(*query),
                        forall|j: int| 0 <= j < i ==> filter_ok(*self.catalog, sv, #[trigger] handlers@[j]),
                        first_bad_filter(*self.catalog, sv, handlers@, 0) == first_bad_filter(*self.catalog, sv, handlers@, i as int),
                    decreases handlers@.len() - i,
                {
                    match &handlers[i] {
                        StreamHandler::Filter(e) => {
                            match self.validate_boolean_expression(e, &context, "WHERE") {
                                Ok(()) => {},
                                Err(err) => {
                                    proof {
                                        assert(!filter_ok(*self.catalog, sv, handlers@[i as int]));
                                        assert(first_bad_filter(*self.catalog, sv, handlers@, i as int) == Some(i as int));
                                    }
                                    return Err(err);
                                },
                            }
                        },
                        StreamHandler::Window(_, _) => {},
                    }
                    proof {
                        assert(first_bad_filter(*self.catalog, sv, handlers@, i as int) == first_bad_filter(*self.catalog, sv, handlers@, i + 1));
                    }
                    i = i + 1;
                }
                proof {
                    assert(first_bad_filter(*self.catalog, sv, handlers@, 0) is None);
                }
            },
            _ => {},
        }
        match query.selector.get_having_expression() {
            Some(having) => self.validate_boolean_expression(having, &context, "HAVING"),
            None => Ok(()),
        }
    }
}


/// `ids` with `x` added at the end unless already present.
pub open spec fn add_unique(ids: Seq<Seq<char>>, x: Seq<char>) -> Seq<Seq<char>> {
    if ids.contains(x) { ids } else { ids.push(x) }
}

/// `ids` with a single stream's id and alias added.
pub open spec fn add_single(ids: Seq<Seq<char>>, s: SingleInputStream) -> Seq<Seq<char>> {
    let with_id = add_unique(ids, s.stream_id@);
    match s.stream_reference_id {
        Some(r) => add_unique(with_id, r@),
        None => with_id,
    }
}

/// The stream names and aliases a query's expressions may refer to.
pub open spec fn query_streams(q: Query) -> Seq<Seq<char>> {
    match q.input_stream {
        Some(InputStream::Single(s)) => add_single(Seq::empty(), s),
        Some(InputStream::Join(j)) => add_single(add_single(Seq::empty(), j.left_input_stream), j.right_input_stream),
        Some(InputStream::State(st)) => stream_ids_of(InputStream::State(st)),
        None => Seq::empty(),
    }
}

/// A handler passes type checking: a filter must be boolean.
pub open spec fn filter_ok(cat: SqlCatalog, streams: Seq<Seq<char>>, h: StreamHandler) -> bool {
    match h {
        StreamHandler::Filter(e) => infer_spec(cat, streams, e) == Some(AttributeType::BOOL),
        StreamHandler::Window(_, _) => true,
    }
}

/// The first handler of `hs` from index `i` on that fails type checking.
pub open spec fn first_bad_filter(cat: SqlCatalog, streams: Seq<Seq<char>>, hs: Seq<StreamHandler>, i: int) -> Option<int>
    decreases hs.len() - i,
{
    if i < 0 || i >= hs.len() {
        None
    } else if !filter_ok(cat, streams, hs[i]) {
        Some(i)
    } else {
        first_bad_filter(cat, streams, hs, i + 1)
    }
}

/// The message when a query's conditions are not all boolean: the first
/// failing `WHERE` filter's, else the `HAVING` condition's.
pub open spec fn query_error(cat: SqlCatalog, q: Query) -> Seq<char> {
    let sv = query_streams(q);
    let filter_error: Option<Seq<char>> = match q.input_stream {
        Some(InputStream::Single(s)) => match first_bad_filter(cat, sv, s.stream_handlers@, 0) {
            Some(j) => match s.stream_handlers@[j] {
                StreamHandler::Filter(e) => Some(boolean_error(cat, sv, e, "WHERE"@)),
                StreamHandler::Window(_, _) => None,
            },
            None => None,
        },
        _ => None,
    };
    match filter_error {
        Some(m) => m,
        None => match q.selector.having_expression {
            Some(h) => boolean_error(cat, sv, h, "HAVING"@),
            None => Seq::empty(),
        },
    }
}

/// The `WHERE` filters of a single-stream input and the `HAVING` condition are boolean.
pub open spec fn query_conditions_boolean(cat: SqlCatalog, q: Query) -> bool {
    let sv = query_streams(q);
    &&& (q.input_stream matches Some(InputStream::Single(s)) ==>
            forall|j: int| 0 <= j < s.stream_handlers@.len() ==> filter_ok(cat, sv, #[trigger] s.stream_handlers@[j]))
    &&& (q.selector.having_expression matches Some(h) ==> infer_spec(cat, sv, h) == Some(AttributeType::BOOL))
}

/// Adds a single stream's id and alias to `ids`, skipping names already there.
fn collect_from_single_stream(single: &SingleInputStream, ids: &mut Vec<String>)
    requires
        string_views(old(ids)@).no_duplicates(),
    ensures
        string_views(final(ids)@) == add_single(string_views(old(ids)@), *single),
        string_views(final(ids)@).no_duplicates(),
{
    push_unique(ids, single.get_stream_id_str());
    match single.get_stream_reference_id_str() {
        Some(r) => {
            push_unique(ids, r);
        },
        None => {},
    }
}

} // verus!
