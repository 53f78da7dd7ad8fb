//! The agent-environment loop: the decisions it takes between awaited calls.
use vstd::prelude::*;

verus! {

/// Bounds on one run.
#[derive(Clone, Debug, Default, PartialEq, Eq, Structural)]
pub struct RunLimits {
    pub max_steps: Option<u64>,
}

impl RunLimits {
    /// Another environment step may start after `completed` steps.
    pub fn allows_step(&self, completed: u64) -> (r: bool)
        ensures
            r == !(self.max_steps matches Some(max) && completed >= max),
    {
        match self.max_steps {
            Some(max) => completed < max,
            None => true,
        }
    }
}

/// Drives an environment with the decisions of an agent.
pub struct Runner<E, A> {
    environment: E,
    agent: A,
    limits: RunLimits,
}

impl<E, A> Runner<E, A> {
    pub closed spec fn environment(&self) -> E {
        self.environment
    }

    pub closed spec fn agent(&self) -> A {
        self.agent
    }

    pub closed spec fn limits(&self) -> RunLimits {
        self.limits
    }

    pub fn new(environment: E, agent: A, limits: RunLimits) -> (r: Runner<E, A>)
        ensures
            r.environment() == environment,
            r.agent() == agent,
            r.limits() == limits,
    {
        Runner { environment, agent, limits }
    }

    /// Hands back the environment, the agent and the limits, to run the loop.
    pub fn into_parts(self) -> (r: (E, A, RunLimits))
        ensures
            r == (self.environment(), self.agent(), self.limits()),
    {
        (self.environment, self.agent, self.limits)
    }
}

} // verus!
