//! Plain records that the agent and memory layers exchange with the
//! indexing core.

use vstd::prelude::*;

verus! {

/// A message entering the agent network.
#[derive(Clone, Debug)]
pub struct AgentRequest {
    pub input: String,
}

impl AgentRequest {
    pub fn new(input: String) -> (r: AgentRequest)
        ensures
            r.input@ == input@,
    {
        AgentRequest { input }
    }
}

/// One role's view of a memory.
#[derive(Clone, Debug)]
pub struct PerspectiveView {
    pub role: String,
    pub summary: String,
    pub body: String,
    pub risks: Option<String>,
    pub decisions: Option<String>,
    pub actions: Option<String>,
}

/// The memory store's answer to a write: the id of the stored memory.
#[derive(Clone, Debug)]
pub struct MemoryWriteResponse {
    pub memory_id: String,
}

/// A request to delete the memory with the given id.
#[derive(Clone, Debug)]
pub struct MemoryDeleteRequest {
    pub id: String,
}

/// What the graph store reports of a namespace.
#[derive(Clone, Debug)]
pub struct HelixNamespaceMeta {
    pub name: String,
    pub collections: Vec<String>,
    pub description: Option<String>,
}

/// The broad intent of a request, used to route it to an agent.
#[derive(Clone, Copy, Debug, PartialEq, Eq, Structural)]
pub enum RouterIntent {
    GeneralSupport,
    Engineering,
    Research,
    Operations,
    Memory,
}

impl RouterIntent {
    pub open spec fn spec_label(self) -> Seq<char> {
        match self {
            RouterIntent::GeneralSupport => "general_support"@,
            RouterIntent::Engineering => "engineering"@,
            RouterIntent::Research => "research"@,
            RouterIntent::Operations => "operations"@,
            RouterIntent::Memory => "memory"@,
        }
    }

    /// The intent's name in snake case.
    pub fn label(&self) -> (r: &'static str)
        ensures
            r@ == self.spec_label(),
    {
        match self {
            RouterIntent::GeneralSupport => "general_support",
            RouterIntent::Engineering => "engineering",
            RouterIntent::Research => "research",
            RouterIntent::Operations => "operations",
            RouterIntent::Memory => "memory",
        }
    }
}

/// A reference text that stands for an agent and its intent.
#[derive(Clone, Debug)]
pub struct SemanticPrototype {
    pub agent_name: String,
    pub intent: RouterIntent,
    pub text: String,
}

} // verus!
