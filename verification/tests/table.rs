use eventflux_rust::engine::event::AttributeValue;
use eventflux_rust::engine::exception::EventFluxError;
use eventflux_rust::engine::table::in_memory::InMemoryTable;
use eventflux_rust::engine::table::rows::row_to_key;
use eventflux_rust::engine::table::{
    CompiledCondition, CompiledUpdateSet, InMemoryCompiledCondition, InMemoryCompiledUpdateSet,
    InMemoryTableFactory, SimpleCompiledCondition, Table,
};
use eventflux_rust::property_map::PropertyMap;
use eventflux_rust::query_api::expression::expression::{Constant, Expression};

fn s(x: &str) -> AttributeValue {
    AttributeValue::String(x.to_string())
}

fn cond(values: Vec<AttributeValue>) -> CompiledCondition {
    CompiledCondition::InMemory(InMemoryCompiledCondition { values })
}

#[test]
fn insert_then_find_and_contains() {
    let mut t = InMemoryTable::new();
    t.insert(&[s("a"), AttributeValue::Int(1)]).unwrap();
    t.insert(&[s("b"), AttributeValue::Int(2)]).unwrap();
    assert!(t.contains(&cond(vec![s("a"), AttributeValue::Int(1)])).unwrap());
    assert!(!t.contains(&cond(vec![s("a"), AttributeValue::Int(2)])).unwrap());
    assert_eq!(
        t.find(&cond(vec![s("b"), AttributeValue::Int(2)])).unwrap(),
        Some(vec![s("b"), AttributeValue::Int(2)])
    );
    assert_eq!(t.find(&cond(vec![s("c")])).unwrap(), None);
    assert_eq!(t.all_rows().len(), 2);
}

#[test]
fn update_replaces_every_matching_row() {
    let mut t = InMemoryTable::new();
    t.insert(&[AttributeValue::Long(7)]).unwrap();
    t.insert(&[AttributeValue::Long(8)]).unwrap();
    t.insert(&[AttributeValue::Long(7)]).unwrap();
    let us = CompiledUpdateSet::InMemory(InMemoryCompiledUpdateSet { values: vec![AttributeValue::Long(9)] });
    assert!(t.update(&cond(vec![AttributeValue::Long(7)]), &us).unwrap());
    assert_eq!(
        t.all_rows(),
        vec![vec![AttributeValue::Long(9)], vec![AttributeValue::Long(8)], vec![AttributeValue::Long(9)]]
    );
    assert!(!t.contains(&cond(vec![AttributeValue::Long(7)])).unwrap());
    assert!(t.contains(&cond(vec![AttributeValue::Long(9)])).unwrap());
    assert!(!t.update(&cond(vec![AttributeValue::Long(7)]), &us).unwrap());
}

#[test]
fn delete_removes_equal_rows_and_reindexes() {
    let mut t = InMemoryTable::new();
    t.insert(&[AttributeValue::Bool(true)]).unwrap();
    t.insert(&[AttributeValue::Null]).unwrap();
    t.insert(&[AttributeValue::Bool(true)]).unwrap();
    t.insert(&[s("x")]).unwrap();
    assert!(t.delete(&cond(vec![AttributeValue::Bool(true)])).unwrap());
    assert_eq!(t.all_rows(), vec![vec![AttributeValue::Null], vec![s("x")]]);
    assert_eq!(t.find(&cond(vec![s("x")])).unwrap(), Some(vec![s("x")]));
    assert!(!t.delete(&cond(vec![AttributeValue::Bool(true)])).unwrap());
}

#[test]
fn float_rows_compare_as_numbers_but_index_by_bits() {
    let mut t = InMemoryTable::new();
    t.insert(&[AttributeValue::Double(0.0f64.to_bits())]).unwrap();
    // -0.0 == 0.0, but its key differs, so nothing is found under it
    assert!(!t.delete(&cond(vec![AttributeValue::Double((-0.0f64).to_bits())])).unwrap());
    let nan = f64::NAN.to_bits();
    t.insert(&[AttributeValue::Double(nan)]).unwrap();
    assert!(t.contains(&cond(vec![AttributeValue::Double(nan)])).unwrap());
    // NaN equals nothing, so a NaN row is never deleted
    assert!(!t.delete(&cond(vec![AttributeValue::Double(nan)])).unwrap());
    assert_eq!(t.all_rows().len(), 2);
}

#[test]
fn other_condition_kinds_match_nothing() {
    let mut t = InMemoryTable::new();
    t.insert(&[AttributeValue::Int(1)]).unwrap();
    let simple = CompiledCondition::Simple(SimpleCompiledCondition(Expression::Constant(Constant::of_int(1))));
    assert!(!t.contains(&simple).unwrap());
    assert!(!t.delete(&simple).unwrap());
    match t.find(&simple) {
        Err(EventFluxError::Other(m)) => assert_eq!(m, "Invalid condition type"),
        _ => panic!("expected an error"),
    }
}

#[test]
fn constant_conditions_compile_to_rows() {
    let t = InMemoryTable::new();
    match t.compile_condition(Expression::Constant(Constant::of_long(5))) {
        CompiledCondition::InMemory(c) => assert_eq!(c.values, vec![AttributeValue::Long(5)]),
        _ => panic!("expected an in-memory condition"),
    }
}

#[test]
fn row_keys_tag_and_join_values() {
    assert_eq!(row_to_key(&[s("a"), AttributeValue::Int(-3), AttributeValue::Null, AttributeValue::Bool(false)]), "S:a|I:-3|N|B:false");
    assert_eq!(row_to_key(&[]), "");
}

#[test]
fn in_memory_factory_creates_empty_tables() {
    let t = InMemoryTableFactory.create("T".to_string(), &PropertyMap::new()).unwrap();
    assert!(t.all_rows().is_empty());
}

#[test]
fn row_keys_escape_separators_in_strings() {
    assert_eq!(row_to_key(&[s("a|S:b")]), "S:a\\|S:b");
    assert_ne!(row_to_key(&[s("a|S:b")]), row_to_key(&[s("a"), s("b")]));
    assert_eq!(row_to_key(&[s("x\\"), s("y")]), "S:x\\\\|S:y");
    assert_eq!(row_to_key(&[AttributeValue::Int(1), s("a"), AttributeValue::Null]), "I:1|S:a|N");
}

#[test]
fn keyed_lookup_finds_only_equal_rows() {
    let mut t = InMemoryTable::new();
    t.insert(&[s("a"), s("b")]).unwrap();
    assert!(!t.contains_key_of(&[s("a|S:b")]));
    assert!(t.find_by_key(&[s("a|S:b")]).is_none());
    assert_eq!(t.find_by_key(&[s("a"), s("b")]), Some(vec![s("a"), s("b")]));
}
