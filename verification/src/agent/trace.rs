//! The record of the tool steps an agent took.
use vstd::prelude::*;

verus! {

/// One tool step: its index, the tool used, and the JSON text of the
/// arguments it was given and of the result it returned.
#[derive(Debug, Clone)]
pub struct AgentStep {
    index: usize,
    tool_name: String,
    arguments: String,
    result: String,
}

/// The mathematical contents of an [`AgentStep`].
pub struct StepView {
    pub index: usize,
    pub tool_name: Seq<char>,
    pub arguments: Seq<char>,
    pub result: Seq<char>,
}

impl View for AgentStep {
    type V = StepView;

    closed spec fn view(&self) -> StepView {
        StepView {
            index: self.index,
            tool_name: self.tool_name@,
            arguments: self.arguments@,
            result: self.result@,
        }
    }
}

impl AgentStep {
    /// A step record.
    pub fn new(index: usize, tool_name: &str, arguments: &str, result: &str) -> (s: Self)
        ensures
            s@ == (StepView { index, tool_name: tool_name@, arguments: arguments@, result: result@ }),
    {
        AgentStep {
            index,
            tool_name: tool_name.to_string(),
            arguments: arguments.to_string(),
            result: result.to_string(),
        }
    }

    /// The step's index in its run.
    pub fn index(&self) -> (n: usize)
        ensures
            n == self@.index,
    {
        self.index
    }

    /// The tool that was used.
    pub fn tool_name(&self) -> (s: &str)
        ensures
            s@ == self@.tool_name,
    {
        self.tool_name.as_str()
    }

    /// The JSON text of the arguments.
    pub fn arguments(&self) -> (s: &str)
        ensures
            s@ == self@.arguments,
    {
        self.arguments.as_str()
    }

    /// The JSON text of the result.
    pub fn result(&self) -> (s: &str)
        ensures
            s@ == self@.result,
    {
        self.result.as_str()
    }
}

/// The steps of a run, in the order they were taken.
#[derive(Debug, Clone)]
pub struct AgentTrace {
    steps: Vec<AgentStep>,
}

impl View for AgentTrace {
    type V = Seq<StepView>;

    closed spec fn view(&self) -> Seq<StepView> {
        self.steps@.map_values(|s: AgentStep| s@)
    }
}

impl AgentTrace {
    /// An empty trace.
    pub fn new() -> (t: Self)
        ensures
            t@ == Seq::<StepView>::empty(),
    {
        let t = AgentTrace { steps: Vec::new() };
        assert(t@ =~= Seq::<StepView>::empty());
        t
    }

    /// Appends a step.
    pub fn push(&mut self, step: AgentStep)
        ensures
            final(self)@ == old(self)@.push(step@),
    {
        self.steps.push(step);
        assert(self@ =~= old(self)@.push(step@));
    }

    /// The steps in order.
    pub fn steps(&self) -> (s: &[AgentStep])
        ensures
            s@.map_values(|x: AgentStep| x@) == self@,
    {
        self.steps.as_slice()
    }

    /// Number of steps.
    pub fn len(&self) -> (n: usize)
        ensures
            n == self@.len(),
    {
        self.steps.len()
    }

    /// Whether no step was taken.
    pub fn is_empty(&self) -> (b: bool)
        ensures
            b == (self@.len() == 0),
    {
        self.steps.len() == 0
    }

    /// The `i`-th step.
    pub fn step(&self, i: usize) -> (s: &AgentStep)
        requires
            i < self@.len(),
        ensures
            s@ == self@[i as int],
    {
        &self.steps[i]
    }
}

impl Default for AgentTrace {
    /// An empty trace.
    fn default() -> (t: Self)
        ensures
            t@ == Seq::<StepView>::empty(),
    {
        AgentTrace::new()
    }
}

} // verus!
