use eventflux_rust::engine::query::pattern_chain_builder::{
    PatternChainBuilder, PatternStepConfig, StateType,
};

fn step(alias: &str, stream: &str, min: usize, max: usize) -> PatternStepConfig {
    PatternStepConfig::new(alias.to_string(), stream.to_string(), min, max)
}

#[test]
fn test_pattern_step_config_creation() {
    let step = PatternStepConfig::new("e1".to_string(), "TempStream".to_string(), 1, 3);
    assert_eq!(step.alias, "e1");
    assert_eq!(step.stream_name, "TempStream");
    assert_eq!(step.min_count, 1);
    assert_eq!(step.max_count, 3);
}

#[test]
fn test_pattern_step_config_validation_success() {
    let step = PatternStepConfig::new("e1".to_string(), "S".to_string(), 2, 5);
    assert!(step.validate().is_ok());
}

#[test]
fn test_pattern_step_config_validation_fail_min_greater_than_max() {
    let step = PatternStepConfig::new("e1".to_string(), "S".to_string(), 5, 2);
    let result = step.validate();
    assert!(result.is_err());
    assert!(result.unwrap_err().contains("min_count"));
}

#[test]
fn test_pattern_step_config_validation_fail_min_zero() {
    let step = PatternStepConfig::new("e1".to_string(), "S".to_string(), 0, 2);
    let result = step.validate();
    assert!(result.is_err());
    assert!(result.unwrap_err().contains("min_count must be >= 1"));
}

#[test]
fn test_pattern_chain_builder_creation() {
    let builder = PatternChainBuilder::new(StateType::Sequence);
    assert_eq!(builder.steps.len(), 0);
}

#[test]
fn test_pattern_chain_builder_add_step() {
    let mut builder = PatternChainBuilder::new(StateType::Sequence);
    builder.add_step(PatternStepConfig::new("e1".to_string(), "A".to_string(), 2, 2));
    assert_eq!(builder.steps.len(), 1);
}

#[test]
fn test_pattern_chain_validation_empty() {
    let builder = PatternChainBuilder::new(StateType::Sequence);
    let result = builder.validate();
    assert!(result.is_err());
    assert!(result.unwrap_err().contains("at least one step"));
}

#[test]
fn test_pattern_chain_validation_first_step_min_zero() {
    let mut builder = PatternChainBuilder::new(StateType::Sequence);
    builder.add_step(PatternStepConfig::new("e1".to_string(), "A".to_string(), 0, 2));
    builder.add_step(PatternStepConfig::new("e2".to_string(), "B".to_string(), 2, 2));
    let result = builder.validate();
    assert!(result.is_err());
    assert!(result.unwrap_err().contains("min_count must be >= 1"));
}

#[test]
fn test_pattern_chain_validation_last_step_not_exact() {
    let mut builder = PatternChainBuilder::new(StateType::Sequence);
    builder.add_step(PatternStepConfig::new("e1".to_string(), "A".to_string(), 2, 2));
    builder.add_step(PatternStepConfig::new("e2".to_string(), "B".to_string(), 1, 5));
    let result = builder.validate();
    assert!(result.is_err());
    assert!(result.unwrap_err().contains("Last step"));
}

#[test]
fn test_pattern_chain_validation_success() {
    let mut builder = PatternChainBuilder::new(StateType::Sequence);
    builder.add_step(PatternStepConfig::new("e1".to_string(), "A".to_string(), 2, 2));
    builder.add_step(PatternStepConfig::new("e2".to_string(), "B".to_string(), 0, 2));
    builder.add_step(PatternStepConfig::new("e3".to_string(), "C".to_string(), 2, 2));
    // the middle step has min=0
    let result = builder.validate();
    assert!(result.is_err());
}

#[test]
fn test_pattern_chain_validation_success_all_exact() {
    let mut builder = PatternChainBuilder::new(StateType::Sequence);
    builder.add_step(PatternStepConfig::new("e1".to_string(), "A".to_string(), 2, 2));
    builder.add_step(PatternStepConfig::new("e2".to_string(), "B".to_string(), 2, 2));
    builder.add_step(PatternStepConfig::new("e3".to_string(), "C".to_string(), 2, 2));
    let result = builder.validate();
    assert!(result.is_ok());
}

#[test]
fn test_processor_chain_build_success() {
    let mut builder = PatternChainBuilder::new(StateType::Sequence);
    builder.add_step(PatternStepConfig::new("e1".to_string(), "A".to_string(), 2, 2));
    builder.add_step(PatternStepConfig::new("e2".to_string(), "B".to_string(), 2, 2));
    let result = builder.build();
    assert!(result.is_ok());
    let chain = result.unwrap();
    assert_eq!(chain.pre_processors.len(), 2);
    assert_eq!(chain.post_processors.len(), 2);
}

#[test]
fn test_processor_chain_build_fail_invalid() {
    let mut builder = PatternChainBuilder::new(StateType::Sequence);
    builder.add_step(PatternStepConfig::new("e1".to_string(), "A".to_string(), 0, 2));
    builder.add_step(PatternStepConfig::new("e2".to_string(), "B".to_string(), 2, 2));
    let result = builder.build();
    assert!(result.is_err());
}

#[test]
fn test_processor_chain_with_within() {
    let mut builder = PatternChainBuilder::new(StateType::Sequence);
    builder.set_within(5000);
    builder.add_step(PatternStepConfig::new("e1".to_string(), "A".to_string(), 2, 2));
    builder.add_step(PatternStepConfig::new("e2".to_string(), "B".to_string(), 2, 2));
    let result = builder.build();
    assert!(result.is_ok());
}

#[test]
fn step_error_messages_are_exact() {
    assert_eq!(
        step("e1", "S", 5, 2).validate().unwrap_err(),
        "Step 'e1': min_count (5) cannot be greater than max_count (2)"
    );
    assert_eq!(
        step("e7", "S", 0, 3).validate().unwrap_err(),
        "Step 'e7': min_count must be >= 1 (got 0)"
    );
    let mut builder = PatternChainBuilder::new(StateType::Pattern);
    builder.add_step(step("a", "A", 1, 1));
    builder.add_step(step("b", "B", 1, 15));
    assert_eq!(
        builder.validate().unwrap_err(),
        "Last step 'b' must have exact count (min=max), got min=1 max=15"
    );
}

#[test]
fn built_chain_forwards_each_step_to_the_next() {
    let mut builder = PatternChainBuilder::new(StateType::Pattern);
    builder.set_within(750);
    builder.add_step(step("a", "A", 1, 3));
    builder.add_step(step("b", "B", 2, 4));
    builder.add_step(step("c", "C", 2, 2));
    let chain = builder.build().unwrap();
    assert_eq!(chain.first_processor, 0);
    assert_eq!(chain.pre_processors[0].within_time, Some(750));
    assert!(chain.pre_processors[0].is_start_state);
    assert_eq!(chain.pre_processors[1].within_time, None);
    assert!(!chain.pre_processors[2].is_start_state);
    assert_eq!(chain.pre_processors[1].min_count, 2);
    assert_eq!(chain.pre_processors[1].max_count, 4);
    assert_eq!(chain.pre_processors[2].state_type, StateType::Pattern);
    assert_eq!(chain.post_processors[0].next_state_pre, Some(1));
    assert_eq!(chain.post_processors[1].next_state_pre, Some(2));
    assert_eq!(chain.post_processors[2].next_state_pre, None);
    assert_eq!(chain.pre_processors[2].this_state_post, 2);
}
