use eventflux_rust::query_api::definition::attribute::AttributeType;
use eventflux_rust::query_api::definition::stream_definition::{StreamDefinition, TableDefinition};
use eventflux_rust::query_api::execution::execution_element::{ExecutionElement, Partition};
use eventflux_rust::query_api::execution::query::{
    InsertIntoStreamAction, OutputAttribute, OutputStream, OutputStreamAction, Query, Selector,
};
use eventflux_rust::query_api::expression::expression::{Constant, Expression, Variable};
use eventflux_rust::engine::partition::parser::PartitionParser;
use eventflux_rust::query_api::definition::annotation::Annotation;
use eventflux_rust::sql_compiler::catalog::{SqlApplication, SqlCatalog};

fn selected(rename: Option<&str>, expression: Expression) -> OutputAttribute {
    OutputAttribute { rename: rename.map(|s| s.to_string()), expression }
}

fn variable(name: &str) -> Expression {
    Expression::Variable(Variable { attribute_name: name.to_string(), stream_id: None })
}

fn query_into(action: OutputStreamAction, selection: Vec<OutputAttribute>) -> Query {
    let mut selector = Selector::new();
    selector.selection_list = selection;
    Query {
        eventflux_element: Default::default(),
        input_stream: None,
        selector,
        output_stream: OutputStream { eventflux_element: Default::default(), action, output_event_type: None },
        output_rate: None,
        annotations: Vec::new(),
    }
}

fn insert_into(target: &str) -> OutputStreamAction {
    OutputStreamAction::InsertInto(InsertIntoStreamAction {
        target_id: target.to_string(),
        is_inner_stream: false,
        is_fault_stream: false,
    })
}

fn attribute_names(d: &StreamDefinition) -> Vec<(String, AttributeType)> {
    d.abstract_definition.attribute_list.iter().map(|a| (a.name.clone(), a.attribute_type)).collect()
}

#[test]
fn to_eventflux_app_adds_output_streams_of_queries() {
    let mut catalog = SqlCatalog::new();
    catalog
        .register_stream("In".to_string(), StreamDefinition::new("In".to_string()).attribute("x".to_string(), AttributeType::INT))
        .unwrap();
    catalog.register_table("T".to_string(), TableDefinition::new("T".to_string()));
    let elements = vec![
        ExecutionElement::Query(query_into(
            insert_into("Out"),
            vec![
                selected(Some("total"), Expression::Constant(Constant::null_value())),
                selected(None, variable("x")),
                selected(None, Expression::Constant(Constant::null_value())),
            ],
        )),
        ExecutionElement::Query(query_into(insert_into("T"), vec![selected(None, variable("x"))])),
        ExecutionElement::Query(query_into(insert_into("In"), vec![selected(None, variable("y"))])),
        ExecutionElement::Partition(Partition {
            query_list: vec![
                query_into(insert_into("Out"), vec![selected(None, variable("z"))]),
                query_into(OutputStreamAction::Return, vec![selected(None, variable("w"))]),
            ],
            annotations: Vec::new(),
        }),
    ];
    let app = SqlApplication::new(catalog, elements).to_eventflux_app("App".to_string());
    assert_eq!(app.name, "App");
    assert_eq!(app.stream_definition_map.len(), 3);
    assert_eq!(app.table_definition_map.len(), 1);
    assert!(app.table_definition_map.contains("T"));
    let out = app.stream_definition_map.get("Out").unwrap();
    assert_eq!(out.get_id(), "Out");
    assert_eq!(
        attribute_names(out),
        vec![
            ("total".to_string(), AttributeType::STRING),
            ("x".to_string(), AttributeType::STRING),
            ("output".to_string(), AttributeType::STRING),
        ]
    );
    let existing = app.stream_definition_map.get("In").unwrap();
    assert_eq!(attribute_names(existing), vec![("x".to_string(), AttributeType::INT)]);
    let default_out = app.stream_definition_map.get("OutputStream").unwrap();
    assert_eq!(attribute_names(default_out), vec![("w".to_string(), AttributeType::STRING)]);
    assert!(!app.stream_definition_map.contains("T"));
}

#[test]
fn empty_sql_application_keeps_catalog() {
    let mut catalog = SqlCatalog::new();
    catalog.register_stream("S".to_string(), StreamDefinition::new("S".to_string())).unwrap();
    let sql_app = SqlApplication::new(catalog, Vec::new());
    assert!(sql_app.is_empty());
    assert_eq!(sql_app.get_execution_elements().len(), 0);
    let app = sql_app.to_eventflux_app("A".to_string());
    assert_eq!(app.stream_definition_map.len(), 1);
    assert_eq!(app.table_definition_map.len(), 0);
}

fn annotation(name: &str, elements: &[(&str, &str)]) -> Annotation {
    Annotation {
        name: name.to_string(),
        elements: elements.iter().map(|(k, v)| (k.to_string(), v.to_string())).collect(),
    }
}

#[test]
fn partition_id_from_info_name_or_index() {
    let named = Partition {
        query_list: Vec::new(),
        annotations: vec![
            annotation("app", &[("name", "ignored")]),
            annotation("info", &[("other", "x"), ("name", "byRegion")]),
        ],
    };
    assert_eq!(PartitionParser::partition_id(&named, 3), "byRegion");
    let unnamed = Partition {
        query_list: Vec::new(),
        annotations: vec![annotation("info", &[("other", "x")]), annotation("info", &[("name", "late")])],
    };
    assert_eq!(PartitionParser::partition_id(&unnamed, 7), "partition_7");
    let bare = Partition { query_list: Vec::new(), annotations: Vec::new() };
    assert_eq!(PartitionParser::partition_id(&bare, 0), "partition_0");
}
