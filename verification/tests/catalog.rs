use eventflux_rust::query_api::definition::attribute::AttributeType;
use eventflux_rust::query_api::definition::stream_definition::{StreamDefinition, TableDefinition};
use eventflux_rust::sql_compiler::catalog::SqlCatalog;
use eventflux_rust::sql_compiler::error::CatalogError;

#[test]
fn test_catalog_creation() {
    let catalog = SqlCatalog::new();
    assert!(catalog.is_empty());
}

#[test]
fn test_register_stream() {
    let mut catalog = SqlCatalog::new();
    let stream = StreamDefinition::new("TestStream".to_string())
        .attribute("col1".to_string(), AttributeType::STRING);

    catalog.register_stream("TestStream".to_string(), stream).unwrap();
    assert!(!catalog.is_empty());
    assert!(catalog.get_stream("TestStream").is_ok());
}

#[test]
fn test_duplicate_stream_error() {
    let mut catalog = SqlCatalog::new();
    let stream1 = StreamDefinition::new("TestStream".to_string());
    let stream2 = StreamDefinition::new("TestStream".to_string());

    catalog.register_stream("TestStream".to_string(), stream1).unwrap();
    let result = catalog.register_stream("TestStream".to_string(), stream2);
    assert!(result.is_err());
}

#[test]
fn test_has_column() {
    let mut catalog = SqlCatalog::new();
    let stream = StreamDefinition::new("TestStream".to_string())
        .attribute("col1".to_string(), AttributeType::STRING)
        .attribute("col2".to_string(), AttributeType::INT);

    catalog.register_stream("TestStream".to_string(), stream).unwrap();
    assert!(catalog.has_column("TestStream", "col1"));
    assert!(catalog.has_column("TestStream", "col2"));
    assert!(!catalog.has_column("TestStream", "col3"));
}

#[test]
fn test_get_column_type() {
    let mut catalog = SqlCatalog::new();
    let stream = StreamDefinition::new("TestStream".to_string())
        .attribute("name".to_string(), AttributeType::STRING)
        .attribute("age".to_string(), AttributeType::INT);

    catalog.register_stream("TestStream".to_string(), stream).unwrap();

    let name_type = catalog.get_column_type("TestStream", "name").unwrap();
    assert_eq!(name_type, AttributeType::STRING);

    let age_type = catalog.get_column_type("TestStream", "age").unwrap();
    assert_eq!(age_type, AttributeType::INT);
}

#[test]
fn test_get_all_columns() {
    let mut catalog = SqlCatalog::new();
    let stream = StreamDefinition::new("TestStream".to_string())
        .attribute("col1".to_string(), AttributeType::STRING)
        .attribute("col2".to_string(), AttributeType::INT);

    catalog.register_stream("TestStream".to_string(), stream).unwrap();
    let columns = catalog.get_all_columns("TestStream").unwrap();
    assert_eq!(columns.len(), 2);
    assert_eq!(columns[0].get_name(), "col1");
    assert_eq!(columns[1].get_name(), "col2");
}

#[test]
fn test_alias() {
    let mut catalog = SqlCatalog::new();
    let stream = StreamDefinition::new("TestStream".to_string())
        .attribute("col1".to_string(), AttributeType::STRING);

    catalog.register_stream("TestStream".to_string(), stream).unwrap();
    catalog.register_alias("ts".to_string(), "TestStream".to_string());

    assert!(catalog.get_stream("ts").is_ok());
    assert!(catalog.has_column("ts", "col1"));
}

#[test]
fn catalog_tables_and_errors() {
    let mut catalog = SqlCatalog::new();
    catalog.register_table(
        "Users".to_string(),
        TableDefinition::new("Users".to_string()).attribute("id".to_string(), AttributeType::LONG),
    );
    assert!(!catalog.is_empty());
    let rel = catalog.get_relation("Users").unwrap();
    assert!(rel.is_table());
    assert!(!rel.is_stream());
    assert!(catalog.has_column("Users", "id"));
    assert!(catalog.has_relation("Users"));
    assert!(!catalog.has_relation("Nope"));
    assert_eq!(catalog.get_stream("Users").unwrap_err(), CatalogError::UnknownStream("Users".to_string()));
    assert_eq!(
        catalog.get_relation("Nope").unwrap_err(),
        CatalogError::UnknownRelation("Nope".to_string())
    );
    catalog
        .register_stream("S".to_string(), StreamDefinition::new("S".to_string()))
        .unwrap();
    assert_eq!(
        catalog.get_column_type("S", "x").unwrap_err(),
        CatalogError::UnknownColumn("S".to_string(), "x".to_string())
    );
    assert_eq!(catalog.get_stream_names(), vec!["S".to_string()]);
}

#[test]
fn test_module_exports() {
    // the catalog is reachable from the compiler module itself
    let _catalog = eventflux_rust::sql_compiler::SqlCatalog::new();
}
