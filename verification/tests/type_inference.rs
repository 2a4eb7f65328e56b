use eventflux_rust::query_api::definition::attribute::AttributeType;
use eventflux_rust::query_api::definition::stream_definition::StreamDefinition;
use eventflux_rust::query_api::expression::case::{Case, WhenClause};
use eventflux_rust::query_api::expression::expression::{CompareOperator, Constant, Expression, Variable};
use eventflux_rust::query_api::execution::input_stream::{InputStream, SingleInputStream};
use eventflux_rust::query_api::execution::query::{OutputStream, Query, Selector};
use eventflux_rust::sql_compiler::catalog::SqlCatalog;
use eventflux_rust::sql_compiler::error::TypeError;
use eventflux_rust::sql_compiler::type_inference::{TypeContext, TypeInferenceEngine};

fn create_test_catalog() -> SqlCatalog {
    let mut catalog = SqlCatalog::new();

    let stream = StreamDefinition::new("TestStream".to_string())
        .attribute("symbol".to_string(), AttributeType::STRING)
        .attribute("price".to_string(), AttributeType::DOUBLE)
        .attribute("volume".to_string(), AttributeType::LONG)
        .attribute("change".to_string(), AttributeType::FLOAT)
        .attribute("count".to_string(), AttributeType::INT)
        .attribute("active".to_string(), AttributeType::BOOL);

    catalog.register_stream("TestStream".to_string(), stream).unwrap();

    catalog
}

#[test]
fn test_constant_type_inference() {
    let catalog = create_test_catalog();
    let _engine = TypeInferenceEngine::new(&catalog);

    assert_eq!(
        TypeInferenceEngine::infer_constant_type(&Constant::of_int(42)).unwrap(),
        AttributeType::INT
    );
    assert_eq!(
        TypeInferenceEngine::infer_constant_type(&Constant::of_long(42)).unwrap(),
        AttributeType::LONG
    );
    assert_eq!(
        TypeInferenceEngine::infer_constant_type(&Constant::double_bits(3.14f64.to_bits())).unwrap(),
        AttributeType::DOUBLE
    );
}

#[test]
fn test_variable_type_inference() {
    let catalog = create_test_catalog();
    let engine = TypeInferenceEngine::new(&catalog);
    let context = TypeContext::from_stream("TestStream".to_string());

    let var = Variable::new("price".to_string());
    assert_eq!(engine.infer_variable_type(&var, &context).unwrap(), AttributeType::DOUBLE);
}

#[test]
fn test_arithmetic_type_precedence() {
    let catalog = create_test_catalog();
    let engine = TypeInferenceEngine::new(&catalog);
    let context = TypeContext::from_stream("TestStream".to_string());

    let expr = Expression::add(Expression::variable("price".to_string()), Expression::value_int(10));
    assert_eq!(engine.infer_type(&expr, &context).unwrap(), AttributeType::DOUBLE);

    let expr = Expression::multiply(Expression::variable("volume".to_string()), Expression::value_int(2));
    assert_eq!(engine.infer_type(&expr, &context).unwrap(), AttributeType::LONG);
}

#[test]
fn test_function_registry() {
    let catalog = create_test_catalog();
    let engine = TypeInferenceEngine::new(&catalog);
    let context = TypeContext::from_stream("TestStream".to_string());

    let expr = Expression::function_no_ns("count".to_string(), vec![]);
    assert_eq!(engine.infer_type(&expr, &context).unwrap(), AttributeType::LONG);

    let expr = Expression::function_no_ns("avg".to_string(), vec![Expression::variable("price".to_string())]);
    assert_eq!(engine.infer_type(&expr, &context).unwrap(), AttributeType::DOUBLE);
}

#[test]
fn type_inference_errors_and_case() {
    let catalog = create_test_catalog();
    let engine = TypeInferenceEngine::new(&catalog);
    let context = TypeContext::from_stream("TestStream".to_string());

    let bad = Expression::add(Expression::variable("symbol".to_string()), Expression::value_int(1));
    assert!(engine.infer_type(&bad, &context).is_err());
    let missing = Expression::variable("nope".to_string());
    assert!(engine.infer_type(&missing, &context).is_err());
    let too_few = Expression::function_no_ns("SUM".to_string(), vec![]);
    assert!(engine.infer_type(&too_few, &context).is_err());
    let udf = Expression::function_no_ns("my_udf".to_string(), vec![]);
    assert_eq!(engine.infer_type(&udf, &context).unwrap(), AttributeType::OBJECT);

    let case = Case::new(
        None,
        vec![WhenClause::new(
            Box::new(Expression::value_bool(true)),
            Box::new(Expression::value_string("a".to_string())),
        )],
        Box::new(Expression::Constant(Constant::null_value())),
    );
    assert_eq!(engine.infer_type(&Expression::case(case), &context).unwrap(), AttributeType::STRING);
    let mixed = Case::new(
        None,
        vec![WhenClause::new(
            Box::new(Expression::value_bool(true)),
            Box::new(Expression::value_string("a".to_string())),
        )],
        Box::new(Expression::value_int(1)),
    );
    assert!(engine.infer_type(&Expression::case(mixed), &context).is_err());
}

#[test]
fn validate_query_checks_where_and_having() {
    let catalog = create_test_catalog();
    let engine = TypeInferenceEngine::new(&catalog);
    let single = SingleInputStream::new_basic_from_ref_id("t".to_string(), "TestStream".to_string())
        .filter(Expression::compare(
            Expression::variable("price".to_string()),
            CompareOperator::GreaterThan,
            Expression::value_int(10),
        ));
    let query = Query {
        eventflux_element: Default::default(),
        input_stream: Some(InputStream::Single(single)),
        selector: Selector::new(),
        output_stream: OutputStream::insert_into("Out".to_string()),
        output_rate: None,
        annotations: Vec::new(),
    };
    assert_eq!(
        engine.build_context_from_query(&query).available_streams,
        vec!["TestStream".to_string(), "t".to_string()]
    );
    assert!(engine.validate_query(&query).is_ok());

    let bad = SingleInputStream::new_basic_from_id("TestStream".to_string())
        .filter(Expression::variable("price".to_string()));
    let query = Query {
        eventflux_element: Default::default(),
        input_stream: Some(InputStream::Single(bad)),
        selector: Selector::new(),
        output_stream: OutputStream::insert_into("Out".to_string()),
        output_rate: None,
        annotations: Vec::new(),
    };
    assert!(engine.validate_query(&query).is_err());
}

fn message<T>(r: Result<T, TypeError>) -> String {
    match r {
        Err(TypeError::ConversionFailed(m)) => m,
        Ok(_) => panic!("expected an error"),
    }
}

#[test]
fn type_inference_error_messages() {
    let catalog = create_test_catalog();
    let engine = TypeInferenceEngine::new(&catalog);
    let context = TypeContext::from_stream("TestStream".to_string());

    let missing = Expression::variable("nope".to_string());
    assert_eq!(message(engine.infer_type(&missing, &context)), "Column 'nope' not found in available streams");
    let qualified = Expression::Variable(Variable::new("nope".to_string()).of_stream("TestStream".to_string()));
    assert_eq!(message(engine.infer_type(&qualified, &context)), "Column TestStream.nope not found");

    let bad = Expression::add(Expression::variable("symbol".to_string()), Expression::value_int(1));
    assert_eq!(message(engine.infer_type(&bad, &context)), "Cannot perform arithmetic on STRING and INT");
    // The left operand's error comes first.
    let both = Expression::add(Expression::variable("nope".to_string()), Expression::variable("gone".to_string()));
    assert_eq!(message(engine.infer_type(&both, &context)), "Column 'nope' not found in available streams");

    let too_few = Expression::function_no_ns("Sum".to_string(), vec![]);
    assert_eq!(message(engine.infer_type(&too_few, &context)), "SUM requires at least 1 argument(s), found 0");
    let wrong = Expression::function_no_ns("upper".to_string(), vec![Expression::value_int(1)]);
    assert_eq!(message(engine.infer_type(&wrong, &context)), "UPPER requires STRING argument");

    let mixed = Case::new(
        None,
        vec![
            WhenClause::new(Box::new(Expression::value_bool(true)), Box::new(Expression::value_string("a".to_string()))),
            WhenClause::new(Box::new(Expression::value_bool(false)), Box::new(Expression::value_int(2))),
        ],
        Box::new(Expression::value_string("c".to_string())),
    );
    assert_eq!(
        message(engine.infer_type(&Expression::case(mixed), &context)),
        "CASE expression type mismatch: WHEN clause 2 returns INT, expected STRING"
    );
    let bad_else = Case::new(
        None,
        vec![WhenClause::new(Box::new(Expression::value_bool(true)), Box::new(Expression::value_string("a".to_string())))],
        Box::new(Expression::value_int(1)),
    );
    assert_eq!(
        message(engine.infer_type(&Expression::case(bad_else), &context)),
        "CASE expression type mismatch: ELSE clause returns INT, expected STRING"
    );
    let empty = Case::new(None, vec![], Box::new(Expression::value_int(1)));
    assert_eq!(
        message(engine.infer_type(&Expression::case(empty), &context)),
        "CASE expression must have at least one WHEN clause"
    );

    let numeric = Expression::variable("price".to_string());
    assert_eq!(
        message(engine.validate_boolean_expression(&numeric, &context, "WHERE")),
        "WHERE clause must return BOOL type, found DOUBLE. Hint: Did you mean to use a comparison? Try adding '> 0' or '!= 0'"
    );
}
