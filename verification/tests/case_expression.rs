use eventflux_rust::engine::event::{AttrView, AttributeValue, Event};
use eventflux_rust::engine::executor::case_expression_executor::CaseExpressionExecutor;
use eventflux_rust::engine::executor::ExpressionExecutor;
use eventflux_rust::query_api::definition::attribute::AttributeType;
use eventflux_rust::query_api::expression::case::Case;
use eventflux_rust::query_api::expression::expression::{Constant, Expression};

struct Typed(AttributeType);

impl ExpressionExecutor for Typed {
    fn return_type(&self) -> AttributeType {
        self.0
    }
    fn value_on(&self, _event: Option<&Event>) -> Option<AttrView> {
        None
    }
    fn execute(&self, _event: Option<&Event>) -> Option<AttributeValue> {
        None
    }
    fn get_return_type(&self) -> AttributeType {
        self.0
    }
}

fn ex(t: AttributeType) -> Box<dyn ExpressionExecutor> {
    Box::new(Typed(t))
}

fn case() -> Case {
    Case::new(None, Vec::new(), Box::new(Expression::Constant(Constant::null_value())))
}

fn err_of(r: Result<CaseExpressionExecutor, String>) -> String {
    match r {
        Err(m) => m,
        Ok(_) => panic!("expected an error"),
    }
}

#[test]
fn case_needs_a_when_clause() {
    let r = CaseExpressionExecutor::new(&case(), None, Vec::new(), ex(AttributeType::INT));
    assert_eq!(err_of(r), "CASE expression must have at least one WHEN clause");
}

#[test]
fn case_result_type_is_first_typed_branch() {
    let whens = vec![
        (ex(AttributeType::BOOL), ex(AttributeType::OBJECT)),
        (ex(AttributeType::BOOL), ex(AttributeType::STRING)),
    ];
    let c = CaseExpressionExecutor::new(&case(), None, whens, ex(AttributeType::OBJECT)).unwrap();
    assert_eq!(c.get_return_type(), AttributeType::STRING);
    let c2 = CaseExpressionExecutor::new(&case(), None, vec![(ex(AttributeType::BOOL), ex(AttributeType::OBJECT))], ex(AttributeType::LONG)).unwrap();
    assert_eq!(c2.get_return_type(), AttributeType::LONG);
}

#[test]
fn case_branch_types_must_agree() {
    let whens = vec![
        (ex(AttributeType::BOOL), ex(AttributeType::INT)),
        (ex(AttributeType::BOOL), ex(AttributeType::STRING)),
    ];
    let r = CaseExpressionExecutor::new(&case(), None, whens, ex(AttributeType::INT));
    assert_eq!(err_of(r), "CASE expression type mismatch: WHEN clause 2 returns STRING, expected INT");
    let r = CaseExpressionExecutor::new(&case(), None, vec![(ex(AttributeType::BOOL), ex(AttributeType::INT))], ex(AttributeType::DOUBLE));
    assert_eq!(err_of(r), "CASE expression type mismatch: ELSE clause returns DOUBLE, expected INT");
}

#[test]
fn simple_case_values_must_be_comparable() {
    let ok = vec![(ex(AttributeType::DOUBLE), ex(AttributeType::STRING))];
    assert!(CaseExpressionExecutor::new(&case(), Some(ex(AttributeType::INT)), ok, ex(AttributeType::OBJECT)).is_ok());
    let bad = vec![
        (ex(AttributeType::LONG), ex(AttributeType::STRING)),
        (ex(AttributeType::STRING), ex(AttributeType::STRING)),
    ];
    let r = CaseExpressionExecutor::new(&case(), Some(ex(AttributeType::INT)), bad, ex(AttributeType::OBJECT));
    assert_eq!(
        err_of(r),
        "CASE expression Simple CASE type mismatch: operand type INT not comparable with WHEN clause 2 type STRING"
    );
}

struct Const(AttributeValue);

impl ExpressionExecutor for Const {
    fn return_type(&self) -> AttributeType {
        AttributeType::OBJECT
    }
    fn value_on(&self, _event: Option<&Event>) -> Option<AttrView> {
        None
    }
    fn execute(&self, _event: Option<&Event>) -> Option<AttributeValue> {
        Some(self.0.clone())
    }
    fn get_return_type(&self) -> AttributeType {
        AttributeType::OBJECT
    }
}

fn konst(v: AttributeValue) -> Box<dyn ExpressionExecutor> {
    Box::new(Const(v))
}

fn searched(conditions: Vec<AttributeValue>) -> CaseExpressionExecutor {
    let whens = conditions
        .into_iter()
        .enumerate()
        .map(|(i, c)| (konst(c), konst(AttributeValue::Int(i as i32))))
        .collect();
    CaseExpressionExecutor {
        operand_executor: None,
        when_executors: whens,
        else_executor: konst(AttributeValue::Int(-1)),
        result_type: AttributeType::INT,
    }
}

#[test]
fn searched_case_takes_first_true_branch() {
    let e = Event::new_with_data(1, vec![]);
    let c = searched(vec![AttributeValue::Bool(false), AttributeValue::Null, AttributeValue::Bool(true), AttributeValue::Bool(true)]);
    assert_eq!(c.execute_searched(Some(&e)), Some(AttributeValue::Int(2)));
    let c = searched(vec![AttributeValue::Bool(false), AttributeValue::Null]);
    assert_eq!(c.execute_searched(Some(&e)), Some(AttributeValue::Int(-1)));
    let c = searched(vec![AttributeValue::Int(1), AttributeValue::Bool(true)]);
    assert_eq!(c.execute_searched(Some(&e)), None);
    assert_eq!(c.execute_searched(None), None);
}

struct Missing;

impl ExpressionExecutor for Missing {
    fn return_type(&self) -> AttributeType {
        AttributeType::INT
    }
    fn value_on(&self, _event: Option<&Event>) -> Option<AttrView> {
        None
    }
    fn execute(&self, _event: Option<&Event>) -> Option<AttributeValue> {
        None
    }
    fn get_return_type(&self) -> AttributeType {
        AttributeType::INT
    }
}

fn none_value() -> Box<dyn ExpressionExecutor> {
    Box::new(Missing)
}

fn text(s: &str) -> AttributeValue {
    AttributeValue::String(s.to_string())
}

fn simple_case(operand: Box<dyn ExpressionExecutor>, whens: Vec<(Box<dyn ExpressionExecutor>, Box<dyn ExpressionExecutor>)>) -> CaseExpressionExecutor {
    CaseExpressionExecutor {
        operand_executor: Some(operand),
        when_executors: whens,
        else_executor: konst(text("other")),
        result_type: AttributeType::STRING,
    }
}

fn never_equal(_a: &AttributeValue, _b: &AttributeValue) -> bool {
    false
}

fn always_equal(_a: &AttributeValue, _b: &AttributeValue) -> bool {
    true
}

fn event() -> Event {
    Event::new_with_data(0, Vec::new())
}

#[test]
fn simple_case_takes_first_equal_when() {
    let c = simple_case(
        konst(AttributeValue::Int(2)),
        vec![
            (konst(AttributeValue::Int(1)), konst(text("one"))),
            (konst(AttributeValue::Long(2)), konst(text("two"))),
            (konst(AttributeValue::Int(2)), konst(text("again"))),
        ],
    );
    let e = event();
    assert_eq!(c.execute(Some(&e), never_equal), Some(text("two")));
    assert_eq!(c.execute(None, never_equal), None);
}

#[test]
fn simple_case_null_matches_nothing() {
    let c = simple_case(konst(AttributeValue::Null), vec![(konst(AttributeValue::Null), konst(text("null")))]);
    let e = event();
    assert_eq!(c.execute(Some(&e), always_equal), Some(text("other")));
}

#[test]
fn simple_case_asks_float_comparison_for_mixed_numbers() {
    let c = simple_case(
        konst(AttributeValue::Int(2)),
        vec![(konst(AttributeValue::Double(2.0f64.to_bits())), konst(text("two")))],
    );
    let e = event();
    assert_eq!(c.execute(Some(&e), always_equal), Some(text("two")));
    assert_eq!(c.execute(Some(&e), never_equal), Some(text("other")));
}

#[test]
fn simple_case_without_when_value_has_no_value() {
    let c = simple_case(
        konst(AttributeValue::Int(1)),
        vec![
            (konst(AttributeValue::Int(0)), konst(text("zero"))),
            (none_value(), konst(text("none"))),
            (konst(AttributeValue::Int(1)), konst(text("one"))),
        ],
    );
    let e = event();
    assert_eq!(c.execute(Some(&e), never_equal), None);
    let no_operand = simple_case(none_value(), vec![(konst(AttributeValue::Int(1)), konst(text("one")))]);
    assert_eq!(no_operand.execute(Some(&e), never_equal), None);
}
