use eventflux_rust::engine::event::{AttrView, AttributeValue, Event};
use eventflux_rust::engine::event::AttributeValue::{Double, Float, Int, Long, Null};
use eventflux_rust::engine::exception::EventFluxError;
use eventflux_rust::engine::executor::case_expression_executor::{choose_branch, sql_equals_exact, CaseBranch};
use eventflux_rust::engine::executor::string_functions::{substring_of, SubstringFunctionExecutor};
use eventflux_rust::engine::executor::ExpressionExecutor;
use eventflux_rust::engine::stream::handler::{startup_errors, startup_result};
use eventflux_rust::engine::stream::mapper::json_mapper::value_text;
use eventflux_rust::text::replace_str;
use eventflux_rust::query_api::definition::attribute::AttributeType;

struct Typed(AttributeType);

impl ExpressionExecutor for Typed {
    fn return_type(&self) -> AttributeType {
        self.0
    }
    fn value_on(&self, _event: Option<&Event>) -> Option<AttrView> {
        None
    }
    fn execute(&self, _event: Option<&Event>) -> Option<AttributeValue> {
        None
    }
    fn get_return_type(&self) -> AttributeType {
        self.0
    }
}

fn ex(t: AttributeType) -> Box<dyn ExpressionExecutor> {
    Box::new(Typed(t))
}

#[test]
fn case_branch_is_first_true_outcome() {
    assert_eq!(choose_branch(&vec![Some(false), Some(true), None]), CaseBranch::When(1));
    assert_eq!(choose_branch(&vec![Some(false), None, Some(true)]), CaseBranch::NoValue);
    assert_eq!(choose_branch(&vec![Some(false), Some(false)]), CaseBranch::Else);
    assert_eq!(choose_branch(&vec![]), CaseBranch::Else);
}

#[test]
fn sql_equality_of_case_values() {
    assert_eq!(sql_equals_exact(&Null, &Null), Some(false));
    assert_eq!(sql_equals_exact(&Int(3), &Long(3)), Some(true));
    assert_eq!(sql_equals_exact(&Long(4), &Int(3)), Some(false));
    assert_eq!(sql_equals_exact(&AttributeValue::String("a".to_string()), &AttributeValue::String("a".to_string())), Some(true));
    assert_eq!(sql_equals_exact(&AttributeValue::String("1".to_string()), &Int(1)), Some(false));
    assert_eq!(sql_equals_exact(&Double(0.0f64.to_bits()), &Double((-0.0f64).to_bits())), Some(true));
    assert_eq!(sql_equals_exact(&Double(f64::NAN.to_bits()), &Double(f64::NAN.to_bits())), Some(false));
    assert_eq!(sql_equals_exact(&Int(1), &Double(1.0f64.to_bits())), None);
    assert_eq!(sql_equals_exact(&Float(1.0f32.to_bits()), &Double(1.0f64.to_bits())), None);
}

#[test]
fn value_texts_of_non_float_values() {
    assert_eq!(value_text(&AttributeValue::Int(-7)).as_deref(), Some("-7"));
    assert_eq!(value_text(&AttributeValue::Long(42)).as_deref(), Some("42"));
    assert_eq!(value_text(&AttributeValue::Bool(true)).as_deref(), Some("true"));
    assert_eq!(value_text(&AttributeValue::Null).as_deref(), Some("null"));
    assert_eq!(value_text(&AttributeValue::String("x y".to_string())).as_deref(), Some("x y"));
    assert_eq!(value_text(&AttributeValue::Double(1.5f64.to_bits())), None);
}

#[test]
fn startup_result_lists_every_error() {
    assert!(startup_result(&Vec::new()).is_ok());
    let errors = vec![
        EventFluxError::AppRuntime { message: "a".to_string() },
        EventFluxError::Other("b".to_string()),
    ];
    match startup_result(&errors) {
        Err(EventFluxError::AppRuntime { message }) => {
            assert_eq!(message, "Runtime startup encountered 2 error(s): App runtime error: a; b")
        }
        _ => panic!("expected a runtime error"),
    }
}

#[test]
fn substring_checks_argument_types() {
    let msg = |r: Result<SubstringFunctionExecutor, String>| match r {
        Err(m) => m,
        Ok(_) => "ok".to_string(),
    };
    assert_eq!(
        msg(SubstringFunctionExecutor::new(ex(AttributeType::INT), ex(AttributeType::INT), None)),
        "substring() requires STRING as first argument"
    );
    assert_eq!(
        msg(SubstringFunctionExecutor::new(ex(AttributeType::STRING), ex(AttributeType::STRING), None)),
        "substring() start index must be numeric"
    );
    assert_eq!(
        msg(SubstringFunctionExecutor::new(ex(AttributeType::STRING), ex(AttributeType::INT), Some(ex(AttributeType::STRING)))),
        "substring() length must be numeric"
    );
    let f = SubstringFunctionExecutor::new(ex(AttributeType::STRING), ex(AttributeType::LONG), Some(ex(AttributeType::DOUBLE))).unwrap();
    assert_eq!(f.get_return_type(), AttributeType::STRING);
}

#[test]
fn sql_equality_is_symmetric_on_examples() {
    let values = vec![
        Int(1),
        Long(1),
        Long(2),
        Null,
        Double(1.0f64.to_bits()),
        AttributeValue::String("1".to_string()),
        AttributeValue::Bool(true),
    ];
    for a in &values {
        for b in &values {
            assert_eq!(sql_equals_exact(a, b), sql_equals_exact(b, a));
        }
        assert_eq!(sql_equals_exact(a, &Null), Some(false));
    }
    assert_eq!(sql_equals_exact(&Int(1), &Long(1)), Some(true));
    assert_eq!(sql_equals_exact(&Int(2), &Double(2.0f64.to_bits())), None);
}

#[test]
fn substring_of_cuts_by_bytes() {
    assert_eq!(substring_of("hello", 1, Some(3)), Some("ell".to_string()));
    assert_eq!(substring_of("hello", -4, Some(2)), Some("he".to_string()));
    assert_eq!(substring_of("hello", 2, None), Some("llo".to_string()));
    assert_eq!(substring_of("hello", 3, Some(10)), Some("lo".to_string()));
    assert_eq!(substring_of("hello", 5, Some(1)), Some(String::new()));
    assert_eq!(substring_of("hello", 9, None), Some(String::new()));
    assert_eq!(substring_of("abc", 0, Some(-1)), Some("abc".to_string()));
}

#[test]
fn substring_of_refuses_unusable_positions() {
    assert_eq!(substring_of("h\u{e9}llo", 2, Some(1)), None);
    assert_eq!(substring_of("h\u{e9}llo", 0, Some(2)), None);
    assert_eq!(substring_of("h\u{e9}llo", 1, Some(2)), Some("\u{e9}".to_string()));
    assert_eq!(substring_of("abc", 1, Some(-1)), None);
}

#[test]
fn replace_str_matches_left_to_right_without_overlap() {
    assert_eq!(replace_str("aaa", "aa", "b"), "ba");
    assert_eq!(replace_str("abc", "", "-"), "-a-b-c-");
    assert_eq!(replace_str("", "", "x"), "x");
    assert_eq!(replace_str("hello world", "o", "0"), "hell0 w0rld");
    assert_eq!(replace_str("ab", "abc", "z"), "ab");
}

#[test]
fn startup_errors_keep_the_order_they_arise_in() {
    let errors = startup_errors(
        vec![EventFluxError::app_runtime("source a")],
        Some("sinks".to_string()),
        vec![EventFluxError::app_runtime("table t")],
        Vec::new(),
        Some("start".to_string()),
    );
    assert_eq!(errors.len(), 4);
    let texts: Vec<String> = errors.iter().map(|e| e.to_string()).collect();
    assert_eq!(
        texts,
        vec![
            "App runtime error: source a".to_string(),
            "App runtime error: sinks".to_string(),
            "App runtime error: table t".to_string(),
            "App runtime error: start".to_string(),
        ]
    );
    assert!(startup_result(&errors).is_err());
    assert!(startup_result(&startup_errors(Vec::new(), None, Vec::new(), Vec::new(), None)).is_ok());
}
