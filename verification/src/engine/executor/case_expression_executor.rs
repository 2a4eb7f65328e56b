//! Construction of `CASE` executors: the result type of the branches, and
//! the type checks of SQL-92 `CASE`.

use vstd::prelude::*;
use crate::engine::event::{AttributeValue, AttrView, Event};
use crate::engine::executor::{ExpressionExecutor, opt_attr};
use crate::engine::table::rows::{nan32, nan64, value_eq, values_equal};
use crate::number::{int_text, usize_to_string};
use crate::query_api::definition::attribute::AttributeType;
use crate::query_api::expression::case::Case;
use crate::sql_compiler::type_inference::{attr_type_label, attr_type_text};
use crate::text::{concat, owned};

verus! {

/// A `CASE` expression whose branches were type-checked.
pub struct CaseExpressionExecutor {
    /// The operand of a simple `CASE operand WHEN value ..`; none for a
    /// searched `CASE WHEN condition ..`.
    pub operand_executor: Option<Box<dyn ExpressionExecutor>>,
    /// The `WHEN` branches: condition (or value) and result.
    pub when_executors: Vec<(Box<dyn ExpressionExecutor>, Box<dyn ExpressionExecutor>)>,
    /// The `ELSE` branch (a missing one is a `NULL` constant).
    pub else_executor: Box<dyn ExpressionExecutor>,
    pub result_type: AttributeType,
}

/// The value of a searched `CASE` from branch `k` on: the result of the first
/// branch whose condition is `true`, skipping `false` and `NULL` conditions,
/// else the `ELSE` value; no value when a condition has none or is not a
/// boolean.
pub open spec fn searched_value(c: &CaseExpressionExecutor, event: Option<&Event>, k: int) -> Option<AttrView>
    decreases c.when_executors@.len() - k,
{
    if k < 0 || k >= c.when_executors@.len() {
        c.else_executor.value_on(event)
    } else {
        match c.when_executors@[k].0.value_on(event) {
            Some(AttrView::Bool(true)) => c.when_executors@[k].1.value_on(event),
            Some(AttrView::Bool(false)) | Some(AttrView::Null) => searched_value(c, event, k + 1),
            _ => None,
        }
    }
}

/// The branch a `CASE` takes.
#[derive(Debug, Clone, Copy, PartialEq, Eq, Structural)]
pub enum CaseBranch {
    /// The result of the `WHEN` branch at this position.
    When(usize),
    /// The `ELSE` result.
    Else,
    /// The expression has no value.
    NoValue,
}

/// The branch chosen from the outcomes of the `WHEN` tests from `k` on: the
/// first `Some(true)`; no value at a `None` before it; `ELSE` when all are
/// `Some(false)`.
pub open spec fn chosen_branch(outcomes: Seq<Option<bool>>, k: int) -> CaseBranch
    decreases outcomes.len() - k,
{
    if k < 0 || k >= outcomes.len() {
        CaseBranch::Else
    } else {
        match outcomes[k] {
            Some(true) => CaseBranch::When(k as usize),
            Some(false) => chosen_branch(outcomes, k + 1),
            None => CaseBranch::NoValue,
        }
    }
}

proof fn lemma_chosen_in_range(outcomes: Seq<Option<bool>>, k: int)
    requires
        0 <= k,
        outcomes.len() <= usize::MAX,
    ensures
        chosen_branch(outcomes, k) matches CaseBranch::When(i) ==> k <= i < outcomes.len(),
    decreases outcomes.len() - k,
{
    if k < outcomes.len() {
        lemma_chosen_in_range(outcomes, k + 1);
    }
}

/// Picks the branch of a `CASE` from the outcomes of its `WHEN` tests, in
/// order (`chosen_branch`).
pub fn choose_branch(outcomes: &Vec<Option<bool>>) -> (r: CaseBranch)
    ensures
        r == chosen_branch(outcomes@, 0),
{
    let mut k: usize = 0;
    while k < outcomes.len()
        invariant
            k <= outcomes@.len(),
            chosen_branch(outcomes@, 0) == chosen_branch(outcomes@, k as int),
        decreases outcomes@.len() - k,
    {
        match outcomes[k] {
            Some(true) => {
                return CaseBranch::When(k);
            },
            Some(false) => {},
            None => {
                return CaseBranch::NoValue;
            },
        }
        k = k + 1;
    }
    CaseBranch::Else
}

/// Whether a simple `CASE` operand equals a `WHEN` value, SQL style (`NULL`
/// equals nothing, integers compare across widths, values of one floating
/// kind compare as numbers), or `None` where the comparison converts an
/// integer or a single-precision value to another floating kind.
pub open spec fn sql_equals_known(a: AttrView, b: AttrView) -> Option<bool> {
    match (a, b) {
        (AttrView::Null, _) => Some(false),
        (_, AttrView::Null) => Some(false),
        (AttrView::Int(x), AttrView::Long(y)) => Some(x as int == y as int),
        (AttrView::Long(x), AttrView::Int(y)) => Some(x as int == y as int),
        (AttrView::Int(_), AttrView::Float(_)) | (AttrView::Int(_), AttrView::Double(_))
            | (AttrView::Long(_), AttrView::Float(_)) | (AttrView::Long(_), AttrView::Double(_))
            | (AttrView::Float(_), AttrView::Int(_)) | (AttrView::Double(_), AttrView::Int(_))
            | (AttrView::Float(_), AttrView::Long(_)) | (AttrView::Double(_), AttrView::Long(_))
            | (AttrView::Float(_), AttrView::Double(_)) | (AttrView::Double(_), AttrView::Float(_)) => None,
        _ => Some(value_eq(a, b)),
    }
}

/// `sql_equals_known` on two values.
pub fn sql_equals_exact(a: &AttributeValue, b: &AttributeValue) -> (r: Option<bool>)
    ensures
        r == sql_equals_known(a@, b@),
{
    match (a, b) {
        (AttributeValue::Null, _) => Some(false),
        (_, AttributeValue::Null) => Some(false),
        (AttributeValue::Int(x), AttributeValue::Long(y)) => Some((*x as i64) == *y),
        (AttributeValue::Long(x), AttributeValue::Int(y)) => Some(*x == (*y as i64)),
        (AttributeValue::Int(_), AttributeValue::Float(_)) | (AttributeValue::Int(_), AttributeValue::Double(_))
            | (AttributeValue::Long(_), AttributeValue::Float(_)) | (AttributeValue::Long(_), AttributeValue::Double(_))
            | (AttributeValue::Float(_), AttributeValue::Int(_)) | (AttributeValue::Double(_), AttributeValue::Int(_))
            | (AttributeValue::Float(_), AttributeValue::Long(_)) | (AttributeValue::Double(_), AttributeValue::Long(_))
            | (AttributeValue::Float(_), AttributeValue::Double(_)) | (AttributeValue::Double(_), AttributeValue::Float(_)) => None,
        _ => Some(values_equal(a, b)),
    }
}

/// Whether `o` is how the operand (view `a`) compares with a `WHEN` value
/// (view `b`): SQL equality where `sql_equals_known` decides, else an answer
/// `float_equals` can give for values with these views.
pub open spec fn compare_outcome<F: Fn(&AttributeValue, &AttributeValue) -> bool>(
    float_equals: F,
    a: AttrView,
    b: AttrView,
    o: bool,
) -> bool {
    match sql_equals_known(a, b) {
        Some(x) => o == x,
        None => exists|x: AttributeValue, y: AttributeValue|
            x@ == a && y@ == b && #[trigger] call_ensures(float_equals, (&x, &y), o),
    }
}

/// Whether `outs` are the outcomes of a simple `CASE` with operand value
/// `operand` on `event`, `WHEN` by `WHEN` until one decides: no outcome where
/// the `WHEN` value has none, else how the operand compares with it; all
/// outcomes but the last are `false`, and the last `WHEN` is reached unless an
/// outcome is not `false`.
pub open spec fn simple_outcomes<F: Fn(&AttributeValue, &AttributeValue) -> bool>(
    c: &CaseExpressionExecutor,
    event: Option<&Event>,
    operand: AttrView,
    float_equals: F,
    outs: Seq<Option<bool>>,
) -> bool {
    &&& outs.len() <= c.when_executors@.len()
    &&& forall|i: int| 0 <= i < outs.len() ==> match c.when_executors@[i].0.value_on(event) {
        None => #[trigger] outs[i] is None,
        Some(w) => outs[i] matches Some(o) && compare_outcome(float_equals, operand, w, o),
    }
    &&& forall|i: int| 0 <= i < outs.len() - 1 ==> #[trigger] outs[i] == Some(false)
    &&& outs.len() < c.when_executors@.len() ==> outs.len() > 0 && outs[outs.len() - 1] != Some(false)
}

/// The value of the branch that `outs` choose (`chosen_branch`).
pub open spec fn branch_value(c: &CaseExpressionExecutor, event: Option<&Event>, outs: Seq<Option<bool>>) -> Option<AttrView> {
    match chosen_branch(outs, 0) {
        CaseBranch::When(i) => c.when_executors@[i as int].1.value_on(event),
        CaseBranch::Else => c.else_executor.value_on(event),
        CaseBranch::NoValue => None,
    }
}

/// SQL equality does not depend on the order of its operands, and `NULL`
/// equals nothing, not even `NULL`.
pub proof fn law_sql_equality_symmetric(a: AttrView, b: AttrView)
    ensures
        sql_equals_known(a, b) == sql_equals_known(b, a),
        a is Null || b is Null ==> sql_equals_known(a, b) == Some(false),
{
}

/// SQL equality agrees with plain equality on values of one kind that is not
/// floating point: two strings, two `INT`s, two `LONG`s or two booleans are
/// SQL-equal exactly when they are equal, so every such value equals itself;
/// an `INT` and a `LONG` are equal when they hold the same number; and a
/// floating-point value equals itself unless it is NaN.
pub proof fn law_sql_equality_agrees_with_equality(a: AttrView, b: AttrView, x: i32, y: i64, f: u32, d: u64)
    ensures
        a !is Null && a !is Float && a !is Double ==> sql_equals_known(a, a) == Some(true),
        (a is String && b is String) || (a is Int && b is Int) || (a is Long && b is Long) || (a is Bool && b is Bool)
            ==> sql_equals_known(a, b) == Some(a == b),
        sql_equals_known(AttrView::Int(x), AttrView::Long(y)) == Some((x as int) == (y as int)),
        sql_equals_known(AttrView::Float(f), AttrView::Float(f)) == Some(!nan32(f)),
        sql_equals_known(AttrView::Double(d), AttrView::Double(d)) == Some(!nan64(d)),
{
}

/// In a simple `CASE`, an operand that is not `NULL` and not floating point
/// compares equal with a `WHEN` value equal to it, and unequal with a `WHEN`
/// value of its kind that differs, whatever floating-point comparison is given.
pub proof fn law_simple_case_compares_by_equality<F: Fn(&AttributeValue, &AttributeValue) -> bool>(
    float_equals: F,
    v: AttrView,
    w: AttrView,
    o: bool,
)
    requires
        v !is Null && v !is Float && v !is Double,
        compare_outcome(float_equals, v, w, o),
    ensures
        w == v ==> o,
        (v is String && w is String) || (v is Int && w is Int) || (v is Long && w is Long) || (v is Bool && w is Bool)
            ==> (o <==> w == v),
{
}

/// The first result type among `types` that is not `OBJECT` (the type of
/// `NULL`), if any.
pub open spec fn first_typed(types: Seq<AttributeType>) -> Option<AttributeType>
    decreases types.len(),
{
    if types.len() == 0 {
        None
    } else if types[0] != AttributeType::OBJECT {
        Some(types[0])
    } else {
        first_typed(types.drop_first())
    }
}

/// The result type of a `CASE`: the first typed `WHEN` result, else the
/// `ELSE` type.
pub open spec fn case_result_type(when_types: Seq<AttributeType>, else_type: AttributeType) -> AttributeType {
    match first_typed(when_types) {
        Some(t) => t,
        None => else_type,
    }
}

pub open spec fn is_numeric_type(t: AttributeType) -> bool {
    t == AttributeType::INT || t == AttributeType::LONG || t == AttributeType::FLOAT || t == AttributeType::DOUBLE
}

/// Values of the two types can be compared: the same type, or two numeric types.
pub open spec fn comparable(a: AttributeType, b: AttributeType) -> bool {
    a == b || (is_numeric_type(a) && is_numeric_type(b))
}

/// The first `WHEN` (position) whose result is typed and differs from `t`.
pub open spec fn first_mismatch(types: Seq<AttributeType>, t: AttributeType, from: int) -> Option<int>
    decreases types.len() - from,
{
    if from < 0 || from >= types.len() {
        None
    } else if types[from] != t && types[from] != AttributeType::OBJECT {
        Some(from)
    } else {
        first_mismatch(types, t, from + 1)
    }
}

/// The first `WHEN` value (position) not comparable with the operand type.
pub open spec fn first_incomparable(types: Seq<AttributeType>, op: AttributeType, from: int) -> Option<int>
    decreases types.len() - from,
{
    if from < 0 || from >= types.len() {
        None
    } else if !comparable(op, types[from]) {
        Some(from)
    } else {
        first_incomparable(types, op, from + 1)
    }
}

pub open spec fn when_mismatch_message(i: int, found: AttributeType, expected: AttributeType) -> Seq<char> {
    "CASE expression type mismatch: WHEN clause "@ + int_text(i + 1) + " returns "@ + attr_type_label(found)
        + ", expected "@ + attr_type_label(expected)
}

pub open spec fn else_mismatch_message(found: AttributeType, expected: AttributeType) -> Seq<char> {
    "CASE expression type mismatch: ELSE clause returns "@ + attr_type_label(found) + ", expected "@
        + attr_type_label(expected)
}

pub open spec fn operand_mismatch_message(op: AttributeType, i: int, found: AttributeType) -> Seq<char> {
    "CASE expression Simple CASE type mismatch: operand type "@ + attr_type_label(op)
        + " not comparable with WHEN clause "@ + int_text(i + 1) + " type "@ + attr_type_label(found)
}

/// Why the branches of a `CASE` cannot be combined, or `None` when they can.
pub open spec fn case_error(
    operand_type: Option<AttributeType>,
    when_value_types: Seq<AttributeType>,
    when_result_types: Seq<AttributeType>,
    else_type: AttributeType,
) -> Option<Seq<char>> {
    let t = case_result_type(when_result_types, else_type);
    if when_result_types.len() == 0 {
        Some("CASE expression must have at least one WHEN clause"@)
    } else if first_mismatch(when_result_types, t, 0) is Some {
        let i = first_mismatch(when_result_types, t, 0)->0;
        Some(when_mismatch_message(i, when_result_types[i], t))
    } else if else_type != t && else_type != AttributeType::OBJECT {
        Some(else_mismatch_message(else_type, t))
    } else {
        match operand_type {
            Some(op) => match first_incomparable(when_value_types, op, 0) {
                Some(i) => Some(operand_mismatch_message(op, i, when_value_types[i])),
                None => None,
            },
            None => None,
        }
    }
}

/// The result types of the branches.
pub open spec fn result_types(whens: Seq<(Box<dyn ExpressionExecutor>, Box<dyn ExpressionExecutor>)>) -> Seq<AttributeType> {
    whens.map_values(|w: (Box<dyn ExpressionExecutor>, Box<dyn ExpressionExecutor>)| w.1.return_type())
}

/// The types of the conditions (or values) of the branches.
pub open spec fn value_types(whens: Seq<(Box<dyn ExpressionExecutor>, Box<dyn ExpressionExecutor>)>) -> Seq<AttributeType> {
    whens.map_values(|w: (Box<dyn ExpressionExecutor>, Box<dyn ExpressionExecutor>)| w.0.return_type())
}

pub open spec fn opt_type(o: Option<Box<dyn ExpressionExecutor>>) -> Option<AttributeType> {
    match o {
        Some(e) => Some(e.return_type()),
        None => None,
    }
}

fn is_numeric(t: AttributeType) -> (r: bool)
    ensures
        r == is_numeric_type(t),
{
    match t {
        AttributeType::INT | AttributeType::LONG | AttributeType::FLOAT | AttributeType::DOUBLE => true,
        _ => false,
    }
}

/// Whether values of the two types can be compared.
fn are_comparable_types(type1: &AttributeType, type2: &AttributeType) -> (r: bool)
    ensures
        r == comparable(*type1, *type2),
{
    if *type1 == *type2 {
        return true;
    }
    is_numeric(*type1) && is_numeric(*type2)
}

impl CaseExpressionExecutor {
    /// Checks the branches and builds the executor: at least one `WHEN`,
    /// every typed result of the type of the first typed one (or of `ELSE`),
    /// and, for a simple `CASE`, every `WHEN` value comparable with the operand.
    pub fn new(
        case: &Case,
        operand_executor: Option<Box<dyn ExpressionExecutor>>,
        when_executors: Vec<(Box<dyn ExpressionExecutor>, Box<dyn ExpressionExecutor>)>,
        else_executor: Box<dyn ExpressionExecutor>,
    ) -> (r: Result<Self, String>)
        ensures
            r is Ok <==> case_error(opt_type(operand_executor), value_types(when_executors@),
                result_types(when_executors@), else_executor.return_type()) is None,
            r matches Err(m) ==> case_error(opt_type(operand_executor), value_types(when_executors@),
                result_types(when_executors@), else_executor.return_type()) == Some(m@),
            r matches Ok(c) ==> c.result_type == case_result_type(result_types(when_executors@), else_executor.return_type())
                && c.when_executors@ == when_executors@
                && (c.operand_executor is Some <==> operand_executor is Some),
    {
        let ghost rts = result_types(when_executors@);
        let ghost vts = value_types(when_executors@);
        if when_executors.len() == 0 {
            return Err(owned("CASE expression must have at least one WHEN clause"));
        }
        let n = when_executors.len();
        // the first typed WHEN result, else the ELSE type
        let mut result_type = AttributeType::OBJECT;
        let mut i: usize = 0;
        let mut found = false;
        assert(rts.skip(0) =~= rts);
        while i < n && !found
            invariant
                n == when_executors@.len(),
                rts == result_types(when_executors@),
                i <= n,
                !found ==> first_typed(rts) == first_typed(rts.skip(i as int)),
                found ==> first_typed(rts) == Some(result_type),
                !found ==> result_type == AttributeType::OBJECT,
            decreases n - i + (if found { 0int } else { 1int }),
        {
            let t = when_executors[i].1.get_return_type();
            proof {
                assert(t == rts[i as int]);
                assert(rts.skip(i as int)[0] == rts[i as int]);
                assert(rts.skip(i as int).drop_first() =~= rts.skip(i + 1));
            }
            if t != AttributeType::OBJECT {
                assert(first_typed(rts.skip(i as int)) == Some(t));
                result_type = t;
                found = true;
            } else {
                i = i + 1;
            }
        }
        let else_type = else_executor.get_return_type();
        let ghost et = else_executor.return_type();
        assert(rts.len() == n);
        if !found {
            assert(i == n);
            assert(rts.skip(n as int) =~= Seq::<AttributeType>::empty());
            assert(first_typed(rts) is None);
            if else_type != AttributeType::OBJECT {
                result_type = else_type;
            }
        }
        assert(result_type == case_result_type(rts, else_type));
        // every typed WHEN result has the result type
        let mut j: usize = 0;
        while j < n
            invariant
                n == when_executors@.len(),
                n > 0,
                rts == result_types(when_executors@),
                vts == value_types(when_executors@),
                else_type == et,
                et == else_executor.return_type(),
                result_type == case_result_type(rts, else_type),
                j <= n,
                first_mismatch(rts, result_type, 0) == first_mismatch(rts, result_type, j as int),
            decreases n - j,
        {
            let t = when_executors[j].1.get_return_type();
            assert(t == rts[j as int]);
            if t != result_type && t != AttributeType::OBJECT {
                let a = usize_to_string(j + 1);
                let m = concat("CASE expression type mismatch: WHEN clause ", a.as_str());
                let m = concat(m.as_str(), " returns ");
                let m = concat(m.as_str(), attr_type_text(t));
                let m = concat(m.as_str(), ", expected ");
                let m = concat(m.as_str(), attr_type_text(result_type));
                assert(first_mismatch(rts, result_type, j as int) == Some(j as int));
                return Err(m);
            }
            j = j + 1;
        }
        if else_type != result_type && else_type != AttributeType::OBJECT {
            let m = concat("CASE expression type mismatch: ELSE clause returns ", attr_type_text(else_type));
            let m = concat(m.as_str(), ", expected ");
            return Err(concat(m.as_str(), attr_type_text(result_type)));
        }
        match &operand_executor {
            Some(op) => {
                let op_type = op.get_return_type();
                let mut k: usize = 0;
                while k < n
                    invariant
                        n == when_executors@.len(),
                        n > 0,
                        rts == result_types(when_executors@),
                        vts == value_types(when_executors@),
                        result_type == case_result_type(rts, else_type),
                        first_mismatch(rts, result_type, 0) is None,
                        !(else_type != result_type && else_type != AttributeType::OBJECT),
                        else_type == else_executor.return_type(),
                        opt_type(operand_executor) == Some(op_type),
                        k <= n,
                        first_incomparable(vts, op_type, 0) == first_incomparable(vts, op_type, k as int),
                    decreases n - k,
                {
                    let t = when_executors[k].0.get_return_type();
                    assert(t == vts[k as int]);
                    if !are_comparable_types(&op_type, &t) {
                        let m = concat("CASE expression Simple CASE type mismatch: operand type ", attr_type_text(op_type));
                        let m = concat(m.as_str(), " not comparable with WHEN clause ");
                        let a = usize_to_string(k + 1);
                        let m = concat(m.as_str(), a.as_str());
                        let m = concat(m.as_str(), " type ");
                        assert(first_incomparable(vts, op_type, k as int) == Some(k as int));
                        return Err(concat(m.as_str(), attr_type_text(t)));
                    }
                    k = k + 1;
                }
            },
            None => {},
        }
        Ok(CaseExpressionExecutor { operand_executor, when_executors, else_executor, result_type })
    }

    pub fn get_return_type(&self) -> (r: AttributeType)
        ensures
            r == self.result_type,
    {
        self.result_type
    }

    /// The value on `event` (none without an event). A searched `CASE` is
    /// `execute_searched`. A simple one has no value when its operand has
    /// none; else it compares the operand with the `WHEN` values in order
    /// (`simple_outcomes`), asking `float_equals` where the comparison needs
    /// floating point, and takes the branch the outcomes choose.
    pub fn execute<F: Fn(&AttributeValue, &AttributeValue) -> bool>(&self, event: Option<&Event>, float_equals: F) -> (r: Option<AttributeValue>)
        requires
            forall|x: &AttributeValue, y: &AttributeValue| call_requires(float_equals, (x, y)),
        ensures
            self.operand_executor is None ==> opt_attr(r) == (if event is None { None } else { searched_value(self, event, 0) }),
            self.operand_executor is Some && event is None ==> r is None,
            self.operand_executor matches Some(op) && event is Some && op.value_on(event) is None ==> r is None,
            self.operand_executor is Some && event is Some ==> (self.operand_executor->0.value_on(event) matches Some(v)
                ==> exists|outs: Seq<Option<bool>>| #[trigger] simple_outcomes(self, event, v, float_equals, outs)
                    && opt_attr(r) == branch_value(self, event, outs)),
    {
        let op = match &self.operand_executor {
            None => {
                return self.execute_searched(event);
            },
            Some(op) => op,
        };
        if event.is_none() {
            return None;
        }
        let operand_value = match op.execute(event) {
            None => {
                return None;
            },
            Some(v) => v,
        };
        let ghost opv = operand_value@;
        let n = self.when_executors.len();
        let mut outcomes: Vec<Option<bool>> = Vec::new();
        let mut k: usize = 0;
        while k < n
            invariant_except_break
                k == outcomes@.len(),
                forall|i: int| 0 <= i < outcomes@.len() ==> #[trigger] outcomes@[i] == Some(false),
            invariant
                n == self.when_executors@.len(),
                k <= n,
                opv == operand_value@,
                forall|x: &AttributeValue, y: &AttributeValue| call_requires(float_equals, (x, y)),
                forall|i: int| 0 <= i < outcomes@.len() ==> match self.when_executors@[i].0.value_on(event) {
                    None => #[trigger] outcomes@[i] is None,
                    Some(w) => outcomes@[i] matches Some(o) && compare_outcome(float_equals, opv, w, o),
                },
            ensures
                simple_outcomes(self, event, opv, float_equals, outcomes@),
            decreases n - k,
        {
            let value = self.when_executors[k].0.execute(event);
            let outcome = match &value {
                None => None,
                Some(w) => match sql_equals_exact(&operand_value, w) {
                    Some(x) => Some(x),
                    None => {
                        let x = float_equals(&operand_value, w);
                        proof {
                            assert(call_ensures(float_equals, (&operand_value, w), x));
                        }
                        Some(x)
                    },
                },
            };
            outcomes.push(outcome);
            proof {
                assert(outcomes@[k as int] == outcome);
            }
            match outcome {
                Some(false) => {},
                _ => {
                    break;
                },
            }
            k = k + 1;
        }
        let branch = choose_branch(&outcomes);
        proof {
            assert(simple_outcomes(self, event, opv, float_equals, outcomes@));
        }
        match branch {
            CaseBranch::When(i) => {
                proof {
                    lemma_chosen_in_range(outcomes@, 0);
                }
                self.when_executors[i].1.execute(event)
            },
            CaseBranch::Else => self.else_executor.execute(event),
            CaseBranch::NoValue => None,
        }
    }

    /// The value on `event` (none without an event) when the `WHEN`
    /// expressions are conditions, as in a searched `CASE`.
    pub fn execute_searched(&self, event: Option<&Event>) -> (r: Option<AttributeValue>)
        ensures
            opt_attr(r) == (if event is None { None } else { searched_value(self, event, 0) }),
    {
        if event.is_none() {
            return None;
        }
        let mut k: usize = 0;
        while k < self.when_executors.len()
            invariant
                k <= self.when_executors@.len(),
                event is Some,
                searched_value(self, event, 0)
                    == searched_value(self, event, k as int),
            decreases self.when_executors@.len() - k,
        {
            let condition = self.when_executors[k].0.execute(event);
            match condition {
                Some(AttributeValue::Bool(true)) => {
                    return self.when_executors[k].1.execute(event);
                },
                Some(AttributeValue::Bool(false)) | Some(AttributeValue::Null) => {},
                _ => {
                    return None;
                },
            }
            k = k + 1;
        }
        self.else_executor.execute(event)
    }
}

} // verus!
