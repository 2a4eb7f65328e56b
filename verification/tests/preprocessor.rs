use eventflux_rust::sql_compiler::error::PreprocessorError;
use eventflux_rust::sql_compiler::preprocessor::{SqlPreprocessor, TimeUnit, WindowSpec};

#[test]
fn test_preprocess_no_window() {
    let sql = "SELECT * FROM stream";
    let result = SqlPreprocessor::preprocess(sql).unwrap();
    assert_eq!(result.standard_sql, sql);
    assert!(result.window_clause.is_none());
}

#[test]
fn test_parse_time_milliseconds() {
    let result = SqlPreprocessor::parse_time_param("INTERVAL '100' MILLISECOND").unwrap();
    assert_eq!(result, (100, TimeUnit::Milliseconds));
}

#[test]
fn test_parse_time_seconds() {
    let result = SqlPreprocessor::parse_time_param("INTERVAL '5' SECOND").unwrap();
    assert_eq!(result, (5, TimeUnit::Seconds));
}

#[test]
fn test_parse_time_minutes() {
    let result = SqlPreprocessor::parse_time_param("INTERVAL '2' MINUTE").unwrap();
    assert_eq!(result, (2, TimeUnit::Minutes));
}

#[test]
fn test_parse_direct_number() {
    let result = SqlPreprocessor::parse_time_param("5000").unwrap();
    assert_eq!(result, (5000, TimeUnit::Milliseconds));
}

#[test]
fn test_window_syntax_tumbling() {
    let sql = "SELECT * FROM stream WINDOW('tumbling', INTERVAL '5' SECOND)";
    let result = SqlPreprocessor::preprocess(sql).unwrap();

    assert_eq!(result.standard_sql, "SELECT * FROM stream");
    assert!(result.window_clause.is_some());

    let window = result.window_clause.unwrap();
    assert_eq!(window.window_type, "tumbling");
    assert_eq!(window.spec, WindowSpec::Tumbling { value: 5, unit: TimeUnit::Seconds });
}

#[test]
fn test_window_sliding_positional() {
    let sql = "SELECT * FROM stream WINDOW('sliding', INTERVAL '1' HOUR, INTERVAL '15' MINUTE)";
    let result = SqlPreprocessor::preprocess(sql).unwrap();

    let window = result.window_clause.unwrap();
    assert_eq!(window.window_type, "sliding");
    assert_eq!(
        window.spec,
        WindowSpec::Sliding {
            window_value: 1,
            window_unit: TimeUnit::Hours,
            slide_value: 15,
            slide_unit: TimeUnit::Minutes
        }
    );
}

#[test]
fn test_window_sliding_named() {
    let sql = "SELECT * FROM stream WINDOW('sliding', size=INTERVAL '1' HOUR, slide=INTERVAL '15' MINUTE)";
    let result = SqlPreprocessor::preprocess(sql).unwrap();

    let window = result.window_clause.unwrap();
    assert_eq!(window.window_type, "sliding");
    assert_eq!(
        window.spec,
        WindowSpec::Sliding {
            window_value: 1,
            window_unit: TimeUnit::Hours,
            slide_value: 15,
            slide_unit: TimeUnit::Minutes
        }
    );
}

#[test]
fn test_window_hop() {
    let sql = "SELECT * FROM stream WINDOW('hop', INTERVAL '5' MINUTE, INTERVAL '1' MINUTE)";
    let result = SqlPreprocessor::preprocess(sql).unwrap();

    let window = result.window_clause.unwrap();
    assert_eq!(window.window_type, "hop");
    assert_eq!(
        window.spec,
        WindowSpec::Sliding {
            window_value: 5,
            window_unit: TimeUnit::Minutes,
            slide_value: 1,
            slide_unit: TimeUnit::Minutes
        }
    );
}

#[test]
fn test_window_length_simple() {
    let sql = "SELECT * FROM stream WINDOW('length', 100)";
    let result = SqlPreprocessor::preprocess(sql).unwrap();

    let window = result.window_clause.unwrap();
    assert_eq!(window.window_type, "length");
    assert_eq!(window.spec, WindowSpec::Length { size: 100 });
}

#[test]
fn test_window_length_named() {
    let sql = "SELECT * FROM stream WINDOW('length', count=50)";
    let result = SqlPreprocessor::preprocess(sql).unwrap();

    let window = result.window_clause.unwrap();
    assert_eq!(window.window_type, "length");
    assert_eq!(window.spec, WindowSpec::Length { size: 50 });
}

#[test]
fn test_window_session() {
    let sql = "SELECT * FROM stream WINDOW('session', INTERVAL '30' SECOND)";
    let result = SqlPreprocessor::preprocess(sql).unwrap();

    let window = result.window_clause.unwrap();
    assert_eq!(window.window_type, "session");
    assert_eq!(window.spec, WindowSpec::Session { value: 30, unit: TimeUnit::Seconds });
}

#[test]
fn test_window_session_named() {
    let sql = "SELECT * FROM stream WINDOW('session', gap=INTERVAL '2' MINUTE)";
    let result = SqlPreprocessor::preprocess(sql).unwrap();

    let window = result.window_clause.unwrap();
    assert_eq!(window.window_type, "session");
    assert_eq!(window.spec, WindowSpec::Session { value: 2, unit: TimeUnit::Minutes });
}

#[test]
fn test_window_tumbling_named() {
    let sql = "SELECT * FROM stream WINDOW('tumbling', size=INTERVAL '10' SECOND)";
    let result = SqlPreprocessor::preprocess(sql).unwrap();

    let window = result.window_clause.unwrap();
    assert_eq!(window.window_type, "tumbling");
    assert_eq!(window.spec, WindowSpec::Tumbling { value: 10, unit: TimeUnit::Seconds });
}

#[test]
fn preprocessor_errors() {
    assert_eq!(
        SqlPreprocessor::preprocess("SELECT * FROM s WINDOW('bogus', 5)").unwrap_err(),
        PreprocessorError::InvalidWindowType("bogus".to_string())
    );
    assert!(matches!(
        SqlPreprocessor::parse_time_param("INTERVAL '5' FORTNIGHT"),
        Err(PreprocessorError::InvalidWindowParams(_))
    ));
    assert!(SqlPreprocessor::parse_time_param("soon").is_err());
    assert_eq!(SqlPreprocessor::parse_int_param(" 7 ").unwrap(), 7);
}

#[test]
fn preprocessor_external_time_windows() {
    let result = SqlPreprocessor::preprocess(
        "SELECT * FROM s WINDOW('externalTime', ts, INTERVAL '100' MILLISECOND)",
    )
    .unwrap();
    let window = result.window_clause.unwrap();
    assert_eq!(window.window_type, "externaltime");
    assert_eq!(
        window.spec,
        WindowSpec::ExternalTime {
            timestamp_field: "ts".to_string(),
            value: 100,
            unit: TimeUnit::Milliseconds
        }
    );
    let result = SqlPreprocessor::preprocess(
        "SELECT * FROM s WINDOW('externalTimeBatch', timestamp=t, duration=INTERVAL '2' SECOND)",
    )
    .unwrap();
    assert_eq!(
        result.window_clause.unwrap().spec,
        WindowSpec::ExternalTimeBatch {
            timestamp_field: "t".to_string(),
            value: 2,
            unit: TimeUnit::Seconds
        }
    );
}

fn params_error(t: &str, params: &str) -> String {
    match SqlPreprocessor::parse_window_spec(t, params) {
        Err(PreprocessorError::InvalidWindowParams(m)) => m,
        _ => panic!("expected a parameter error"),
    }
}

#[test]
fn window_parameter_errors_name_the_problem() {
    assert_eq!(
        params_error("externaltimebatch", ""),
        "externalTimeBatch window requires 2 parameters (timestamp, duration)"
    );
    assert_eq!(
        params_error("externaltime", "ts"),
        "externalTime window requires 2 parameters (timestamp, duration)"
    );
    assert_eq!(params_error("sliding", "size=1000"), "Missing 'slide' parameter");
    assert_eq!(params_error("hop", "slide=10"), "Missing 'size' parameter");
    assert_eq!(params_error("length", "abc"), "Invalid integer: abc");
    assert_eq!(params_error("tumbling", "soon"), "Cannot parse time: soon");
    assert_eq!(params_error("time", "INTERVAL 'x' SECOND"), "Invalid number: x");
    assert_eq!(params_error("session", "INTERVAL '5' fortnight"), "Unknown time unit: FORTNIGHT");
}
