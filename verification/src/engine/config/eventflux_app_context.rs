//! Stand-in types for the parts of an application context that are not yet
//! modelled: statistics, timestamps, scripts, triggers and schedulers.

use vstd::prelude::*;
use crate::query_api::definition::attribute::AttributeType;

verus! {

#[derive(Debug, Clone, Default)]
pub struct StatisticsManagerPlaceholder {}

#[derive(Debug, Clone, Default)]
pub struct TimestampGeneratorPlaceholder {}

#[derive(Debug, Clone, Default)]
pub struct ScriptPlaceholder {}

/// A script function, known so far only by its return type.
#[derive(Debug, Clone)]
pub struct ScriptFunctionPlaceholder {
    pub return_type: AttributeType,
}

impl Default for ScriptFunctionPlaceholder {
    fn default() -> (r: Self)
        ensures
            r.return_type == AttributeType::OBJECT,
    {
        ScriptFunctionPlaceholder { return_type: AttributeType::OBJECT }
    }
}

#[derive(Debug, Clone, Default)]
pub struct TriggerPlaceholder {}

#[derive(Debug, Clone, Default)]
pub struct ExternalReferencedHolderPlaceholder {}

#[derive(Debug, Clone, Default)]
pub struct SchedulerPlaceholder {}

#[derive(Debug, Clone, Default)]
pub struct DisruptorExceptionHandlerPlaceholder {}

#[derive(Debug, Clone, Default)]
pub struct ExceptionListenerPlaceholder {}

/// How much runtime statistics an application collects.
#[allow(non_camel_case_types)]
#[derive(Debug, Clone, Copy, PartialEq, Eq, Structural, Hash)]
pub enum MetricsLevelPlaceholder {
    OFF,
    BASIC,
    DETAIL,
}

impl Default for MetricsLevelPlaceholder {
    fn default() -> (r: Self)
        ensures
            r == MetricsLevelPlaceholder::OFF,
    {
        MetricsLevelPlaceholder::OFF
    }
}

} // verus!
