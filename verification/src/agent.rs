//! Records exchanged with the studio automation agent.
use vstd::prelude::*;

verus! {

/// A generation request.
#[derive(Debug, Clone, PartialEq, Eq)]
pub struct GenerationPrompt {
    pub prompt: String,
    pub negative_prompt: Option<String>,
    pub style_preset: String,
}

/// A task handed to the agent.
#[derive(Debug, Clone, PartialEq, Eq)]
pub struct AgentTask {
    pub id: String,
    pub command: String,
    pub status: String,
}

} // verus!
