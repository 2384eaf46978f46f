//! How many tool steps an agent may take.
use vstd::prelude::*;

use crate::error::{Result, TinyError};

verus! {

/// Limits of an agent run.
#[derive(Debug, Clone, Copy)]
pub struct AgentConfig {
    max_steps: usize,
}

impl AgentConfig {
    /// The most tool steps a run takes before it answers.
    pub closed spec fn spec_max_steps(&self) -> usize {
        self.max_steps
    }

    /// A configuration allowing `max_steps` tool steps; zero is refused.
    pub fn new(max_steps: usize) -> (r: Result<Self>)
        ensures
            r is Ok <==> max_steps > 0,
            r matches Ok(c) ==> c.spec_max_steps() == max_steps,
            r matches Err(e) ==> e matches TinyError::InvalidArgument(m) && m@
                == "agent max_steps must be greater than zero"@,
    {
        if max_steps == 0 {
            return Err(TinyError::InvalidArgument("agent max_steps must be greater than zero".to_string()));
        }
        Ok(AgentConfig { max_steps })
    }

    /// The most tool steps a run takes.
    pub fn max_steps(&self) -> (n: usize)
        ensures
            n == self.spec_max_steps(),
    {
        self.max_steps
    }
}

impl Default for AgentConfig {
    /// Five tool steps.
    fn default() -> (c: Self)
        ensures
            c.spec_max_steps() == 5,
    {
        AgentConfig { max_steps: 5 }
    }
}

} // verus!
