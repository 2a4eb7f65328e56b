pub mod case;
pub mod cast;
pub mod expression;
