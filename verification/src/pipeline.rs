//! Pipelines: named sequences of agent and tool steps.

use crate::json::Json;
use crate::stream::Cost;
use vstd::prelude::*;

verus! {

/// What happens when a step fails.
#[derive(Clone, Copy, Debug, PartialEq, Eq, Structural)]
pub enum OnFailure {
    Fail,
    Skip,
    UseDefault,
}

/// What a step does.
pub enum StepAction {
    /// An agent works on a task.
    Agent { agent: String, task: String },
    /// A tool is called with an input.
    Tool { tool: String, input: Json },
}

/// A step of a pipeline.
pub struct PipelineStep {
    pub id: String,
    pub action: StepAction,
    pub output_var: Option<String>,
    /// The ids of the steps that must end first.
    pub depends_on: Vec<String>,
    pub timeout_minutes: Option<u64>,
    pub retry_on_failure: Option<u32>,
    pub retry_backoff_ms: Option<u64>,
    pub retry_max_delay_ms: Option<u64>,
    pub on_failure: OnFailure,
    pub default_value: Option<String>,
}

/// A pipeline.
pub struct PipelineDefinition {
    pub name: String,
    pub version: String,
    pub description: Option<String>,
    pub permissions: Vec<String>,
    pub steps: Vec<PipelineStep>,
    /// The variable that holds the pipeline's output.
    pub output: Option<String>,
    pub max_cost_usd: Option<Cost>,
    pub max_wall_time_minutes: Option<u64>,
}

} // verus!
