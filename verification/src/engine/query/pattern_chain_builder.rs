//! Building count-pattern chains such as `A{2} -> B{2} -> C{2}`.
//!
//! Each step of a pattern becomes a pre-state processor with its own state id,
//! paired with a post-state processor that forwards to the next step's
//! pre-state processor.

use vstd::prelude::*;
use crate::number::{int_text, usize_to_string};
use crate::text::{owned, concat};

verus! {

/// Whether the steps of a chain must follow each other strictly.
#[derive(Debug, Clone, Copy, PartialEq, Eq, Structural)]
pub enum StateType {
    Pattern,
    Sequence,
}

/// Configuration of one step of a pattern chain.
#[derive(Debug, Clone)]
pub struct PatternStepConfig {
    /// Event alias (`e1`, `e2`, ...).
    pub alias: String,
    /// Stream whose events the step matches.
    pub stream_name: String,
    /// Minimum number of events the step needs.
    pub min_count: usize,
    /// Maximum number of events the step accepts.
    pub max_count: usize,
}

pub open spec fn step_range_message(alias: Seq<char>, min: int, max: int) -> Seq<char> {
    "Step '"@ + alias + "': min_count ("@ + int_text(min) + ") cannot be greater than max_count ("@
        + int_text(max) + ")"@
}

pub open spec fn step_zero_message(alias: Seq<char>) -> Seq<char> {
    "Step '"@ + alias + "': min_count must be >= 1 (got 0)"@
}

pub open spec fn last_step_message(alias: Seq<char>, min: int, max: int) -> Seq<char> {
    "Last step '"@ + alias + "' must have exact count (min=max), got min="@ + int_text(min)
        + " max="@ + int_text(max)
}

pub open spec fn empty_chain_message() -> Seq<char> {
    "Pattern chain must have at least one step"@
}

/// The complaint about one step on its own, if any.
pub open spec fn step_error(s: PatternStepConfig) -> Option<Seq<char>> {
    if s.min_count > s.max_count {
        Some(step_range_message(s.alias@, s.min_count as int, s.max_count as int))
    } else if s.min_count == 0 {
        Some(step_zero_message(s.alias@))
    } else {
        None
    }
}

/// The complaint about the first step, in order, that is wrong on its own.
pub open spec fn first_step_error(steps: Seq<PatternStepConfig>) -> Option<Seq<char>>
    decreases steps.len(),
{
    if steps.len() == 0 {
        None
    } else {
        match step_error(steps[0]) {
            Some(m) => Some(m),
            None => first_step_error(steps.drop_first()),
        }
    }
}

/// Why a chain of steps cannot be built, or `None` when it can.
pub open spec fn chain_error(steps: Seq<PatternStepConfig>) -> Option<Seq<char>> {
    if steps.len() == 0 {
        Some(empty_chain_message())
    } else if first_step_error(steps) is Some {
        first_step_error(steps)
    } else {
        let last = steps[steps.len() - 1];
        if last.min_count != last.max_count {
            Some(last_step_message(last.alias@, last.min_count as int, last.max_count as int))
        } else {
            None
        }
    }
}

impl PatternStepConfig {
    pub fn new(alias: String, stream_name: String, min_count: usize, max_count: usize) -> (r: Self)
        ensures
            r.alias@ == alias@,
            r.stream_name@ == stream_name@,
            r.min_count == min_count,
            r.max_count == max_count,
    {
        PatternStepConfig { alias, stream_name, min_count, max_count }
    }

    /// Check this step's bounds: `1 <= min_count <= max_count`.
    pub fn validate(&self) -> (r: Result<(), String>)
        ensures
            r is Ok <==> step_error(*self) is None,
            r matches Err(m) ==> step_error(*self) == Some(m@),
    {
        if self.min_count > self.max_count {
            let mut m = owned("Step '");
            m = concat(m.as_str(), self.alias.as_str());
            m = concat(m.as_str(), "': min_count (");
            let a = usize_to_string(self.min_count);
            m = concat(m.as_str(), a.as_str());
            m = concat(m.as_str(), ") cannot be greater than max_count (");
            let b = usize_to_string(self.max_count);
            m = concat(m.as_str(), b.as_str());
            m = concat(m.as_str(), ")");
            return Err(m);
        }
        if self.min_count == 0 {
            let mut m = owned("Step '");
            m = concat(m.as_str(), self.alias.as_str());
            m = concat(m.as_str(), "': min_count must be >= 1 (got 0)");
            return Err(m);
        }
        Ok(())
    }
}

/// Collects the steps of a pattern chain and checks them before building.
pub struct PatternChainBuilder {
    pub steps: Vec<PatternStepConfig>,
    pub state_type: StateType,
    pub within_duration_ms: Option<i64>,
}

/// The pre-state processor of one step: what it counts and where it reports.
#[derive(Debug, Clone, Copy, PartialEq, Eq, Structural)]
pub struct CountPreStep {
    pub state_id: usize,
    pub min_count: usize,
    pub max_count: usize,
    pub is_start_state: bool,
    pub state_type: StateType,
    /// The `WITHIN` bound; only the first step carries it.
    pub within_time: Option<i64>,
    /// Index of this step's post-state processor.
    pub this_state_post: usize,
}

/// The post-state processor of one step and the pre-state processor it forwards to.
#[derive(Debug, Clone, Copy, PartialEq, Eq, Structural)]
pub struct CountPostStep {
    pub state_id: usize,
    pub min_count: usize,
    pub max_count: usize,
    /// Index of the next step's pre-state processor, `None` for the last step.
    pub next_state_pre: Option<usize>,
}

/// The wired processors of a chain; `first_processor` indexes the entry step.
pub struct ProcessorChain {
    pub pre_processors: Vec<CountPreStep>,
    pub post_processors: Vec<CountPostStep>,
    pub first_processor: usize,
}

/// The pre-state processor that step `i` of `steps` becomes.
pub open spec fn pre_step_of(
    steps: Seq<PatternStepConfig>,
    i: int,
    state_type: StateType,
    within: Option<i64>,
) -> CountPreStep {
    CountPreStep {
        state_id: i as usize,
        min_count: steps[i].min_count,
        max_count: steps[i].max_count,
        is_start_state: i == 0,
        state_type,
        within_time: if i == 0 { within } else { None },
        this_state_post: i as usize,
    }
}

/// The post-state processor that step `i` of `steps` becomes.
pub open spec fn post_step_of(steps: Seq<PatternStepConfig>, i: int) -> CountPostStep {
    CountPostStep {
        state_id: i as usize,
        min_count: steps[i].min_count,
        max_count: steps[i].max_count,
        next_state_pre: if i + 1 < steps.len() { Some((i + 1) as usize) } else { None },
    }
}

/// `chain` is the wiring of `steps`: one pre/post pair per step, each post
/// forwarding to the next step's pre, entry at step 0.
pub open spec fn wires(
    chain: ProcessorChain,
    steps: Seq<PatternStepConfig>,
    state_type: StateType,
    within: Option<i64>,
) -> bool {
    &&& chain.pre_processors@.len() == steps.len()
    &&& chain.post_processors@.len() == steps.len()
    &&& chain.first_processor == 0
    &&& forall|i: int|
        0 <= i < steps.len() ==> #[trigger] chain.pre_processors@[i] == pre_step_of(
            steps,
            i,
            state_type,
            within,
        )
    &&& forall|i: int|
        0 <= i < steps.len() ==> #[trigger] chain.post_processors@[i] == post_step_of(steps, i)
}

impl PatternChainBuilder {
    pub fn new(state_type: StateType) -> (r: Self)
        ensures
            r.steps@.len() == 0,
            r.state_type == state_type,
            r.within_duration_ms is None,
    {
        PatternChainBuilder { steps: Vec::new(), state_type, within_duration_ms: None }
    }

    pub fn add_step(&mut self, step: PatternStepConfig)
        ensures
            final(self).steps@ == old(self).steps@.push(step),
            final(self).state_type == old(self).state_type,
            final(self).within_duration_ms == old(self).within_duration_ms,
    {
        self.steps.push(step);
    }

    pub fn set_within(&mut self, duration_ms: i64)
        ensures
            final(self).steps@ == old(self).steps@,
            final(self).state_type == old(self).state_type,
            final(self).within_duration_ms == Some(duration_ms),
    {
        self.within_duration_ms = Some(duration_ms);
    }

    /// Check the chain: at least one step, every step valid on its own, and
    /// the last step with an exact count.
    pub fn validate(&self) -> (r: Result<(), String>)
        ensures
            r is Ok <==> chain_error(self.steps@) is None,
            r matches Err(m) ==> chain_error(self.steps@) == Some(m@),
    {
        if self.steps.len() == 0 {
            return Err(owned("Pattern chain must have at least one step"));
        }
        let n = self.steps.len();
        let mut i: usize = 0;
        assert(self.steps@.subrange(0, n as int) =~= self.steps@);
        while i < n
            invariant
                n == self.steps@.len(),
                0 < n,
                i <= n,
                first_step_error(self.steps@) == first_step_error(self.steps@.subrange(i as int, n as int)),
            decreases n - i,
        {
            let ghost rest = self.steps@.subrange(i as int, n as int);
            assert(rest[0] == self.steps@[i as int]);
            assert(rest.drop_first() =~= self.steps@.subrange(i + 1, n as int));
            match self.steps[i].validate() {
                Err(m) => {
                    return Err(m);
                },
                Ok(()) => {},
            }
            i = i + 1;
        }
        assert(self.steps@.subrange(n as int, n as int).len() == 0);
        let last = n - 1;
        if self.steps[last].min_count != self.steps[last].max_count {
            let mut m = owned("Last step '");
            m = concat(m.as_str(), self.steps[last].alias.as_str());
            m = concat(m.as_str(), "' must have exact count (min=max), got min=");
            let a = usize_to_string(self.steps[last].min_count);
            m = concat(m.as_str(), a.as_str());
            m = concat(m.as_str(), " max=");
            let b = usize_to_string(self.steps[last].max_count);
            m = concat(m.as_str(), b.as_str());
            return Err(m);
        }
        Ok(())
    }

    /// Validate, then wire one pre/post processor pair per step.
    pub fn build(self) -> (r: Result<ProcessorChain, String>)
        ensures
            r is Ok <==> chain_error(self.steps@) is None,
            r matches Err(m) ==> chain_error(self.steps@) == Some(m@),
            r matches Ok(chain) ==> wires(chain, self.steps@, self.state_type, self.within_duration_ms),
    {
        match self.validate() {
            Err(m) => {
                return Err(m);
            },
            Ok(()) => {},
        }
        let n = self.steps.len();
        let mut pre: Vec<CountPreStep> = Vec::new();
        let mut post: Vec<CountPostStep> = Vec::new();
        let mut i: usize = 0;
        while i < n
            invariant
                n == self.steps@.len(),
                i <= n,
                pre@.len() == i,
                post@.len() == i,
                forall|j: int|
                    0 <= j < i ==> #[trigger] pre@[j] == pre_step_of(
                        self.steps@,
                        j,
                        self.state_type,
                        self.within_duration_ms,
                    ),
                forall|j: int| 0 <= j < i ==> #[trigger] post@[j] == post_step_of(self.steps@, j),
            decreases n - i,
        {
            let within = if i == 0 { self.within_duration_ms } else { None };
            pre.push(
                CountPreStep {
                    state_id: i,
                    min_count: self.steps[i].min_count,
                    max_count: self.steps[i].max_count,
                    is_start_state: i == 0,
                    state_type: self.state_type,
                    within_time: within,
                    this_state_post: i,
                },
            );
            let next = if i + 1 < n { Some(i + 1) } else { None };
            post.push(
                CountPostStep {
                    state_id: i,
                    min_count: self.steps[i].min_count,
                    max_count: self.steps[i].max_count,
                    next_state_pre: next,
                },
            );
            i = i + 1;
        }
        Ok(ProcessorChain { pre_processors: pre, post_processors: post, first_processor: 0 })
    }
}

} // verus!
