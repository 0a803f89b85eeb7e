use vstd::prelude::*;
use crate::task::TaskId;
use crate::capability::CapId;

pub mod registry;
pub mod lifecycle;
pub mod supervisor;
pub mod tree;

verus! {

/// Agents are backed by tasks and share their id space.
pub type AgentId = TaskId;

#[derive(Debug, Clone, Copy, PartialEq, Eq, Structural)]
pub enum AgentState {
    Initializing,
    Running,
    Waiting,
    Suspended,
    Dead,
}

/// What a supervisor does when a child dies.
#[derive(Debug, Clone, Copy, PartialEq, Eq, Structural)]
pub enum RestartPolicy {
    RestartOne,
    RestartAll,
    Escalate,
    Permanent,
}

/// Where an agent's model runs.
#[derive(Debug, Clone)]
pub enum ModelBinding {
    Local { model_id: String },
    Remote { endpoint: String, api_key_cap: CapId },
    Auto { preference: Vec<String> },
}

#[derive(Debug, Clone, Copy)]
pub struct ResourceLimits {
    pub max_memory_bytes: u64,
    pub max_children: usize,
}

impl Default for ResourceLimits {
    /// 16 MiB of memory and 32 children.
    fn default() -> (r: Self)
        ensures
            r.max_memory_bytes == 16 * 1024 * 1024,
            r.max_children == 32,
    {
        ResourceLimits { max_memory_bytes: 16 * 1024 * 1024, max_children: 32 }
    }
}

#[derive(Debug, Clone)]
pub struct AgentConfig {
    pub name: String,
    pub system_prompt: Option<String>,
    pub model: ModelBinding,
    pub tools: Vec<String>,
    pub capabilities: Vec<CapId>,
    pub restart_policy: RestartPolicy,
    pub resource_limits: ResourceLimits,
}

/// Why an agent operation failed.
#[derive(Debug, Clone, Copy, PartialEq, Eq, Structural)]
pub enum AgentError {
    /// The parent already has its maximum number of children.
    MaxChildren,
    /// No agent has that id.
    NotFound,
}

impl AgentError {
    /// The kernel's message for this failure.
    pub fn message(&self) -> (m: &'static str)
        ensures
            m@ == match self {
                AgentError::MaxChildren => "parent has reached max children"@,
                AgentError::NotFound => "agent not found"@,
            },
    {
        match self {
            AgentError::MaxChildren => "parent has reached max children",
            AgentError::NotFound => "agent not found",
        }
    }
}

} // verus!
