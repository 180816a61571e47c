//! The agent capability interface and the ordered agent collection.

use vstd::prelude::*;

verus! {

/// An error reported by an agent phase; fatal to the run that holds the agent.
#[derive(Debug)]
pub struct AgentError {
    pub message: String,
}

/// Universal agent methods invoked by the simulation loop.
/// Every capability is independently optional and defaults to a no-op
/// success; implementors override only the phases they take part in.
pub trait Agent {
    /// Executed once per run, outside the main simulation loop and before
    /// any tick begins. Left un-overridden, it is a no-op success.
    fn startup(&mut self) -> (r: Result<(), AgentError>)
        default_ensures
            r is Ok,
    {
        Ok(())
    }

    /// Executed by each agent inside the main simulation loop.
    /// Ordering is determined by placement in the agent collection.
    /// Left un-overridden, it is a no-op success.
    fn step(&mut self) -> (r: Result<(), AgentError>)
        default_ensures
            r is Ok,
    {
        Ok(())
    }

    /// Executed by each agent in a full pass that precedes the `step` pass
    /// of the same tick. Left un-overridden, it is a no-op success.
    fn priority_step(&mut self) -> (r: Result<(), AgentError>)
        default_ensures
            r is Ok,
    {
        Ok(())
    }
}

/// An owned, dynamically dispatched agent.
///
/// The agents of one run are heterogeneous, so the collection stores each
/// behind a boxed trait object; the wrapper gives the element a nominal type
/// that contracts can quantify over.
pub struct AgentBox(pub Box<dyn Agent>);

impl AgentBox {
    /// Wraps an owned trait object as a collection element.
    pub fn wrap(agent: Box<dyn Agent>) -> AgentBox {
        AgentBox(agent)
    }
}

/// A collection of agents that can be operated on collectively.
///
/// Insertion order is significant and preserved: it determines both the
/// startup order and the per-tick phase order of the run that owns the
/// collection.
pub struct Agents(pub Vec<AgentBox>);

impl Agents {
    /// Constructs a new, empty collection of agents.
    pub fn new() -> (r: Self)
        ensures
            r.0@ =~= Seq::<AgentBox>::empty(),
    {
        Agents(Vec::new())
    }

    /// Adds a new agent at the end of the collection, taking ownership of it.
    /// The agents already present keep their places.
    pub fn add(self, agent: impl Agent + 'static) -> (r: Self)
        ensures
            r.0@.len() == self.0@.len() + 1,
            exists|a: AgentBox| r.0@ == self.0@.push(a),
    {
        let boxed: Box<dyn Agent> = Box::new(agent);
        let element = AgentBox::wrap(boxed);
        let mut v = self.0;
        v.push(element);
        Agents(v)
    }

    /// Returns a mutable view of the agents, in collection order.
    pub fn iter_mut(&mut self) -> (r: &mut Vec<AgentBox>)
        ensures
            *r == old(self).0,
            final(self).0 == *final(r),
    {
        &mut self.0
    }
}

/// [`Agent`] implementation for a collection of agents, so that a group can
/// itself stand in an outer collection. The collective phases are no-ops.
impl Agent for Agents {
    fn step(&mut self) -> (r: Result<(), AgentError>)
        ensures
            r is Ok,
    {
        Ok(())
    }

    fn priority_step(&mut self) -> (r: Result<(), AgentError>)
        ensures
            r is Ok,
    {
        Ok(())
    }
}

} // verus!
