//! The decisions of an agent run: which prompt to answer next, which tool
//! to call, and when to stop. The caller generates text, runs tools and
//! reports back.
use vstd::prelude::*;

use crate::agent::config::AgentConfig;
use crate::agent::decision::AgentDecision;
use crate::agent::prompt::{build_agent_decision_prompt, build_agent_final_prompt, decision_prompt, final_prompt, indices_fit};
use crate::agent::trace::{AgentStep, AgentTrace, StepView};
use crate::error::{Result, TinyError};
use crate::generation::config::{GenerationConfig, ONE_BITS, ZERO_BITS};
use crate::text::{chars_of, push_str, string_of, trim, trim_range};
use crate::tools::ToolRegistry;

verus! {

/// What the caller does next in a run.
#[derive(Debug, Clone)]
pub enum AgentAction {
    /// Generate a decision from this prompt and report it to `on_decision`.
    Decide(String),
    /// Generate arguments for the tool from `request`, run the tool, and
    /// report both to `on_tool_result`.
    CallTool { tool_name: String, request: String },
    /// Generate the final answer from this prompt; the run is over.
    Answer(String),
}

/// The mathematical contents of an [`AgentAction`].
pub enum ActionView {
    Decide(Seq<char>),
    CallTool { tool_name: Seq<char>, request: Seq<char> },
    Answer(Seq<char>),
}

impl View for AgentAction {
    type V = ActionView;

    open spec fn view(&self) -> ActionView {
        match self {
            AgentAction::Decide(p) => ActionView::Decide(p@),
            AgentAction::CallTool { tool_name, request } => ActionView::CallTool { tool_name: tool_name@, request: request@ },
            AgentAction::Answer(p) => ActionView::Answer(p@),
        }
    }
}

/// One `name: result` line per step.
pub open spec fn observations_text(steps: Seq<StepView>) -> Seq<char>
    decreases steps.len(),
{
    if steps.len() == 0 {
        Seq::empty()
    } else {
        observations_text(steps.drop_last()) + steps.last().tool_name + ": "@ + steps.last().result + "\n"@
    }
}

/// The request a tool's arguments are generated from: the user request,
/// followed by the results of earlier steps when there are any.
pub open spec fn tool_request(request: Seq<char>, steps: Seq<StepView>) -> Seq<char> {
    if steps.len() == 0 {
        request
    } else {
        request + "\n\nPrevious tool observations:\n"@ + observations_text(steps)
    }
}

/// Builds the request a tool's arguments are generated from.
pub fn build_tool_request(user_request: &str, trace: &AgentTrace) -> (r: String)
    ensures
        r@ == tool_request(user_request@, trace@),
{
    let mut out = user_request.to_string();
    let ghost steps = trace@;
    if !trace.is_empty() {
        push_str(&mut out, "\n\nPrevious tool observations:\n");
        let ghost intro = out@;
        let mut j: usize = 0;
        assert(steps.take(0) =~= Seq::<StepView>::empty());
        while j < trace.len()
            invariant
                steps == trace@,
                0 <= j <= steps.len(),
                out@ == intro + observations_text(steps.take(j as int)),
            decreases steps.len() - j,
        {
            let step = trace.step(j);
            push_str(&mut out, step.tool_name());
            push_str(&mut out, ": ");
            push_str(&mut out, step.result());
            push_str(&mut out, "\n");
            assert(steps.take(j + 1).drop_last() =~= steps.take(j as int));
            j = j + 1;
            assert(out@ =~= intro + observations_text(steps.take(j as int)));
        }
        assert(steps.take(steps.len() as int) =~= steps);
    }
    out
}

/// The state of an agent run between the caller's reports.
#[derive(Debug)]
pub struct AgentRun {
    request: String,
    trace: AgentTrace,
    max_steps: usize,
    pending: Option<String>,
}

impl AgentRun {
    /// The trimmed user request.
    pub closed spec fn spec_request(&self) -> Seq<char> {
        self.request@
    }

    /// The steps taken so far.
    pub closed spec fn spec_trace(&self) -> Seq<StepView> {
        self.trace@
    }

    /// The most steps the run takes.
    pub closed spec fn spec_max_steps(&self) -> nat {
        self.max_steps as nat
    }

    /// The tool whose result is awaited, if any.
    pub closed spec fn spec_pending(&self) -> Option<Seq<char>> {
        match self.pending {
            Some(n) => Some(n@),
            None => None,
        }
    }

    /// The run's invariant: steps are numbered from zero, there are at most
    /// the allowed number, and a tool is awaited only while a step is left.
    pub open spec fn wf(&self) -> bool {
        &&& self.spec_request().len() > 0
        &&& trim(self.spec_request()) == self.spec_request()
        &&& self.spec_trace().len() <= self.spec_max_steps()
        &&& forall|i: int| 0 <= i < self.spec_trace().len() ==> #[trigger] self.spec_trace()[i].index == i
        &&& self.spec_pending() is Some ==> self.spec_trace().len() < self.spec_max_steps()
    }

    proof fn lemma_indices_fit(&self)
        requires
            self.wf(),
        ensures
            indices_fit(self.spec_trace()),
    {
        assert forall|i: int| 0 <= i < self.spec_trace().len() implies #[trigger] self.spec_trace()[i].index < usize::MAX by {
            assert(self.spec_trace()[i].index == i);
        }
    }

    /// The record of the steps taken so far.
    pub fn trace(&self) -> (t: &AgentTrace)
        ensures
            t@ == self.spec_trace(),
    {
        &self.trace
    }

    /// Starts a run on `user_request`: the registry must hold a tool and the
    /// trimmed request must not be empty. The first action asks for a decision.
    pub fn start(user_request: &str, registry: &ToolRegistry, config: &AgentConfig) -> (r: Result<(AgentRun, AgentAction)>)
        requires
            registry.wf(),
            config.spec_max_steps() > 0,
        ensures
            r matches Err(e) ==> (e is Tool <==> registry@.len() == 0),
            r matches Err(e) ==> (e is InvalidArgument <==> registry@.len() > 0 && trim(user_request@).len() == 0),
            r is Ok <==> registry@.len() > 0 && trim(user_request@).len() > 0,
            r matches Ok(p) ==> p.0.wf() && p.0.spec_request() == trim(user_request@)
                && p.0.spec_trace() == Seq::<StepView>::empty()
                && p.0.spec_max_steps() == config.spec_max_steps()
                && p.0.spec_pending() is None
                && p.1@ == ActionView::Decide(decision_prompt(trim(user_request@), Seq::empty(), registry.listing())),
            r matches Err(TinyError::Tool(m)) ==> m@ == "agent requires at least one registered tool"@,
            r matches Err(TinyError::InvalidArgument(m)) ==> m@ == "agent request cannot be empty"@,
    {
        if registry.is_empty() {
            return Err(TinyError::Tool("agent requires at least one registered tool".to_string()));
        }
        let chars = chars_of(user_request);
        let n = chars.len();
        assert(chars@.subrange(0, n as int) =~= chars@);
        let (a, b) = trim_range(&chars, 0, n);
        if a == b {
            return Err(TinyError::InvalidArgument("agent request cannot be empty".to_string()));
        }
        let request = string_of(&chars, a, b);
        let trace = AgentTrace::new();
        assert(trim(request@) == request@) by {
            crate::text::lemma_trim_idempotent(chars@.subrange(0, n as int));
        }
        let prompt = match build_agent_decision_prompt(request.as_str(), &trace, registry) {
            Ok(p) => p,
            Err(e) => {
                return Err(e);
            },
        };
        let run = AgentRun { request, trace, max_steps: config.max_steps(), pending: None };
        Ok((run, AgentAction::Decide(prompt)))
    }

    /// Takes the decision the model made. `final` ends the run with the
    /// answer prompt; a registered tool is called with the request built
    /// from the steps so far; an unregistered tool is an error.
    pub fn on_decision(&mut self, decision: AgentDecision, registry: &ToolRegistry) -> (r: Result<AgentAction>)
        requires
            old(self).wf(),
            old(self).spec_pending() is None,
            old(self).spec_trace().len() < old(self).spec_max_steps(),
            registry.wf(),
        ensures
            final(self).wf(),
            final(self).spec_request() == old(self).spec_request(),
            final(self).spec_trace() == old(self).spec_trace(),
            final(self).spec_max_steps() == old(self).spec_max_steps(),
            r is Ok <==> (decision matches AgentDecision::Tool(n) ==> registry@.dom().contains(n@)),
            r matches Err(e) ==> e is Tool && final(self).spec_pending() is None,
            r matches Err(TinyError::Tool(m)) ==> decision matches AgentDecision::Tool(n) && m@
                == "agent selected unknown tool `"@ + n@ + "`"@,
            decision is Final ==> final(self).spec_pending() is None && (r matches Ok(a)
                && a@ == ActionView::Answer(final_prompt(old(self).spec_request(), old(self).spec_trace()))),
            (decision is Tool && registry@.dom().contains(decision->Tool_0@)) ==> final(self).spec_pending()
                == Some(decision->Tool_0@) && (r matches Ok(a) && a@ == (ActionView::CallTool {
                tool_name: decision->Tool_0@,
                request: tool_request(old(self).spec_request(), old(self).spec_trace()),
            })),
    {
        match decision {
            AgentDecision::Final => {
                let prompt = match build_agent_final_prompt(self.request.as_str(), &self.trace) {
                    Ok(p) => p,
                    Err(e) => {
                        return Err(e);
                    },
                };
                Ok(AgentAction::Answer(prompt))
            },
            AgentDecision::Tool(name) => {
                if !registry.contains(name.as_str()) {
                    let mut message = "agent selected unknown tool `".to_string();
                    push_str(&mut message, name.as_str());
                    push_str(&mut message, "`");
                    return Err(TinyError::Tool(message));
                }
                let request = build_tool_request(self.request.as_str(), &self.trace);
                self.pending = Some(name.clone());
                Ok(AgentAction::CallTool { tool_name: name, request })
            },
        }
    }

    /// Records the awaited tool's arguments and result (as JSON text) as the
    /// next step. While steps are left the next action asks for another
    /// decision; after the last one it asks for the answer.
    pub fn on_tool_result(&mut self, arguments: &str, result: &str, registry: &ToolRegistry) -> (r: AgentAction)
        requires
            old(self).wf(),
            old(self).spec_pending() is Some,
            registry.wf(),
            registry@.len() > 0,
        ensures
            final(self).wf(),
            final(self).spec_request() == old(self).spec_request(),
            final(self).spec_max_steps() == old(self).spec_max_steps(),
            final(self).spec_pending() is None,
            final(self).spec_trace() == old(self).spec_trace().push(StepView {
                index: old(self).spec_trace().len() as usize,
                tool_name: old(self).spec_pending()->0,
                arguments: arguments@,
                result: result@,
            }),
            final(self).spec_trace().len() < final(self).spec_max_steps() ==> r@ == ActionView::Decide(
                decision_prompt(final(self).spec_request(), final(self).spec_trace(), registry.listing()),
            ),
            final(self).spec_trace().len() == final(self).spec_max_steps() ==> r@ == ActionView::Answer(
                final_prompt(final(self).spec_request(), final(self).spec_trace()),
            ),
    {
        let name = match self.pending.take() {
            Some(n) => n,
            None => String::new(),
        };
        let index = self.trace.len();
        self.trace.push(AgentStep::new(index, name.as_str(), arguments, result));
        proof {
            assert forall|i: int| 0 <= i < self.trace@.len() implies #[trigger] self.trace@[i].index == i by {
                if i < self.trace@.len() - 1 {
                    assert(self.trace@[i] == old(self).trace@[i]);
                }
            }
            self.lemma_indices_fit();
        }
        if self.trace.len() < self.max_steps {
            match build_agent_decision_prompt(self.request.as_str(), &self.trace, registry) {
                Ok(p) => AgentAction::Decide(p),
                Err(_) => AgentAction::Answer(String::new()),
            }
        } else {
            match build_agent_final_prompt(self.request.as_str(), &self.trace) {
                Ok(p) => AgentAction::Answer(p),
                Err(_) => AgentAction::Answer(String::new()),
            }
        }
    }
}


/// The final answer from the text the model produced: trimmed, and refused
/// when nothing is left.
pub fn final_answer(decoded: &str) -> (r: Result<String>)
    ensures
        r is Ok <==> trim(decoded@).len() > 0,
        r matches Ok(a) ==> a@ == trim(decoded@),
        r matches Err(e) ==> e matches TinyError::Tool(m) && m@ == "agent produced an empty final answer"@,
{
    let chars = chars_of(decoded);
    let n = chars.len();
    assert(chars@.subrange(0, n as int) =~= chars@);
    let (a, b) = trim_range(&chars, 0, n);
    if a == b {
        return Err(TinyError::Tool("agent produced an empty final answer".to_string()));
    }
    Ok(string_of(&chars, a, b))
}

/// The settings for generating a decision, which only has to name a tool:
/// at most 16 tokens, chosen greedily from the whole distribution, with the
/// run's seed.
pub fn decision_generation_config(config: &GenerationConfig) -> (c: GenerationConfig)
    ensures
        c == (GenerationConfig {
            max_new_tokens: 16,
            temperature: ZERO_BITS,
            top_k: None,
            top_p: ONE_BITS,
            seed: config.seed,
        }),
{
    GenerationConfig {
        max_new_tokens: 16,
        temperature: ZERO_BITS,
        top_k: None,
        top_p: ONE_BITS,
        seed: config.seed,
    }
}

/// The settings for generating the final answer: the run's own, with at
/// most 64 new tokens.
pub fn final_generation_config(config: &GenerationConfig) -> (c: GenerationConfig)
    ensures
        c == (GenerationConfig {
            max_new_tokens: if config.max_new_tokens < 64 { config.max_new_tokens } else { 64 },
            temperature: config.temperature,
            top_k: config.top_k,
            top_p: config.top_p,
            seed: config.seed,
        }),
{
    let max_new_tokens = if config.max_new_tokens < 64 { config.max_new_tokens } else { 64 };
    GenerationConfig {
        max_new_tokens,
        temperature: config.temperature,
        top_k: config.top_k,
        top_p: config.top_p,
        seed: config.seed,
    }
}

} // verus!
