pub mod pattern_chain_builder;
pub mod sequence_processor;
pub mod logical_processor;
