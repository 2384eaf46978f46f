//! The prompts that ask a model for the next action and for the answer.
use vstd::prelude::*;

use crate::agent::trace::{AgentTrace, StepView};
use crate::error::{Result, TinyError};
use crate::text::{chars_of, decimal, push_decimal, push_str, string_of, trim, trim_range};
use crate::tools::ToolRegistry;

verus! {

/// One line `- name: description` per tool, in the given order.
pub open spec fn tools_text(tools: Seq<(Seq<char>, Seq<char>)>) -> Seq<char>
    decreases tools.len(),
{
    if tools.len() == 0 {
        Seq::empty()
    } else {
        tools_text(tools.drop_last()) + "- "@ + tools.last().0 + ": "@ + tools.last().1 + "\n"@
    }
}

/// One `Step n:` block per step, numbered from one, with the tool and the
/// JSON text of its result.
pub open spec fn steps_text(steps: Seq<StepView>) -> Seq<char>
    decreases steps.len(),
{
    if steps.len() == 0 {
        Seq::empty()
    } else {
        steps_text(steps.drop_last()) + "\nStep "@ + decimal((steps.last().index + 1) as nat) + ":\n"@
            + "Tool: "@ + steps.last().tool_name + "\nResult: "@ + steps.last().result + "\n"@
    }
}

/// The fixed instructions that open a decision prompt.
pub open spec fn decision_header() -> Seq<char> {
    "Choose the next action needed to solve the user request.\n"@
        + "Use a tool when information or computation is still needed.\n"@
        + "If facts or documents must be looked up first, choose document_search before calculator.\n"@
        + "Choose final only when the existing tool results are enough to answer.\n"@
        + "Respond with ONLY the action name (e.g. document_search, calculator, or final).\n"@
        + "Do not write sentences or bullet points.\n\n"@ + "Available actions:\n"@
}

/// The prompt that asks for the next action on request `request` (already
/// trimmed), after the steps of `steps`, offering the tools of `tools`.
pub open spec fn decision_prompt(
    request: Seq<char>,
    steps: Seq<StepView>,
    tools: Seq<(Seq<char>, Seq<char>)>,
) -> Seq<char> {
    decision_header() + tools_text(tools) + "- final: Give the final answer when no more tools are needed.\n"@
        + (if steps.len() > 0 {
        "\nPrevious tool results:\n"@ + steps_text(steps)
    } else {
        Seq::empty()
    }) + "\nUser request:\n"@ + request + "\n\nNext action:"@
}

/// One `name: result` block per step.
pub open spec fn results_text(steps: Seq<StepView>) -> Seq<char>
    decreases steps.len(),
{
    if steps.len() == 0 {
        Seq::empty()
    } else {
        results_text(steps.drop_last()) + "\n"@ + steps.last().tool_name + ": "@ + steps.last().result + "\n"@
    }
}

/// The prompt that asks for the final answer to `request` (already trimmed)
/// from the results of `steps`.
pub open spec fn final_prompt(request: Seq<char>, steps: Seq<StepView>) -> Seq<char> {
    "Answer the user request using the tool results below.\n\n"@ + "User request:\n"@ + request
        + (if steps.len() > 0 {
        "\n\nTool results:\n"@ + results_text(steps)
    } else {
        Seq::empty()
    }) + "\nGive only the final answer to the user."@
}

/// Whether every step's index can be counted from one in `usize`.
pub open spec fn indices_fit(steps: Seq<StepView>) -> bool {
    forall|i: int| 0 <= i < steps.len() ==> #[trigger] steps[i].index < usize::MAX
}

/// The trimmed request, or `None` when nothing is left.
fn trimmed_request(request: &str) -> (r: Option<String>)
    ensures
        r is Some <==> trim(request@).len() > 0,
        r matches Some(s) ==> s@ == trim(request@),
{
    let chars = chars_of(request);
    let n = chars.len();
    assert(chars@.subrange(0, n as int) =~= chars@);
    let (a, b) = trim_range(&chars, 0, n);
    if a == b {
        None
    } else {
        Some(string_of(&chars, a, b))
    }
}

/// Builds the prompt asking for the next action. An empty request and an
/// empty registry are refused.
pub fn build_agent_decision_prompt(user_request: &str, trace: &AgentTrace, registry: &ToolRegistry) -> (r: Result<String>)
    requires
        registry.wf(),
        indices_fit(trace@),
    ensures
        r matches Err(e) ==> (e is InvalidArgument <==> trim(user_request@).len() == 0),
        r matches Err(e) ==> (e is Tool <==> trim(user_request@).len() > 0 && registry@.len() == 0),
        r is Ok <==> trim(user_request@).len() > 0 && registry@.len() > 0,
        r matches Ok(p) ==> p@ == decision_prompt(trim(user_request@), trace@, registry.listing()),
        r matches Err(TinyError::InvalidArgument(m)) ==> m@ == "agent request cannot be empty"@,
        r matches Err(TinyError::Tool(m)) ==> m@ == "agent requires at least one registered tool"@,
{
    let request = match trimmed_request(user_request) {
        Some(s) => s,
        None => {
            return Err(TinyError::InvalidArgument("agent request cannot be empty".to_string()));
        },
    };
    if registry.is_empty() {
        return Err(TinyError::Tool("agent requires at least one registered tool".to_string()));
    }
    let mut prompt = String::new();
    push_str(&mut prompt, "Choose the next action needed to solve the user request.\n");
    push_str(&mut prompt, "Use a tool when information or computation is still needed.\n");
    push_str(&mut prompt, "If facts or documents must be looked up first, choose document_search before calculator.\n");
    push_str(&mut prompt, "Choose final only when the existing tool results are enough to answer.\n");
    push_str(&mut prompt, "Respond with ONLY the action name (e.g. document_search, calculator, or final).\n");
    push_str(&mut prompt, "Do not write sentences or bullet points.\n\n");
    push_str(&mut prompt, "Available actions:\n");
    let ghost head = prompt@;
    assert(head =~= decision_header());
    proof {
        registry.lemma_listing();
    }
    let ghost tools = registry.listing();
    let count = registry.len();
    let mut i: usize = 0;
    assert(tools.take(0) =~= Seq::<(Seq<char>, Seq<char>)>::empty());
    while i < count
        invariant
            registry.wf(),
            tools == registry.listing(),
            count == tools.len(),
            count == registry@.len(),
            0 <= i <= count,
            prompt@ == head + tools_text(tools.take(i as int)),
        decreases count - i,
    {
        let (name, description) = registry.tool_at(i);
        push_str(&mut prompt, "- ");
        push_str(&mut prompt, name);
        push_str(&mut prompt, ": ");
        push_str(&mut prompt, description);
        push_str(&mut prompt, "\n");
        assert(tools.take(i + 1).drop_last() =~= tools.take(i as int));
        i = i + 1;
        assert(prompt@ =~= head + tools_text(tools.take(i as int)));
    }
    assert(tools.take(count as int) =~= tools);
    push_str(&mut prompt, "- final: Give the final answer when no more tools are needed.\n");
    let ghost before_steps = prompt@;
    let ghost steps = trace@;
    if !trace.is_empty() {
        push_str(&mut prompt, "\nPrevious tool results:\n");
        let ghost intro = prompt@;
        let mut j: usize = 0;
        assert(steps.take(0) =~= Seq::<StepView>::empty());
        while j < trace.len()
            invariant
                steps == trace@,
                indices_fit(steps),
                0 <= j <= steps.len(),
                prompt@ == intro + steps_text(steps.take(j as int)),
            decreases steps.len() - j,
        {
            let step = trace.step(j);
            assert(steps[j as int].index < usize::MAX);
            push_str(&mut prompt, "\nStep ");
            push_decimal(&mut prompt, step.index() + 1);
            push_str(&mut prompt, ":\n");
            push_str(&mut prompt, "Tool: ");
            push_str(&mut prompt, step.tool_name());
            push_str(&mut prompt, "\nResult: ");
            push_str(&mut prompt, step.result());
            push_str(&mut prompt, "\n");
            assert(steps.take(j + 1).drop_last() =~= steps.take(j as int));
            j = j + 1;
            assert(prompt@ =~= intro + steps_text(steps.take(j as int)));
        }
        assert(steps.take(steps.len() as int) =~= steps);
    }
    push_str(&mut prompt, "\nUser request:\n");
    push_str(&mut prompt, request.as_str());
    push_str(&mut prompt, "\n\nNext action:");
    assert(prompt@ =~= decision_prompt(request@, steps, tools));
    Ok(prompt)
}

/// Builds the prompt asking for the final answer. An empty request is refused.
pub fn build_agent_final_prompt(user_request: &str, trace: &AgentTrace) -> (r: Result<String>)
    ensures
        r is Ok <==> trim(user_request@).len() > 0,
        r matches Ok(p) ==> p@ == final_prompt(trim(user_request@), trace@),
        r matches Err(e) ==> e matches TinyError::InvalidArgument(m) && m@
            == "agent request cannot be empty"@,
{
    let request = match trimmed_request(user_request) {
        Some(s) => s,
        None => {
            return Err(TinyError::InvalidArgument("agent request cannot be empty".to_string()));
        },
    };
    let mut prompt = String::new();
    push_str(&mut prompt, "Answer the user request using the tool results below.\n\n");
    push_str(&mut prompt, "User request:\n");
    push_str(&mut prompt, request.as_str());
    let ghost steps = trace@;
    if !trace.is_empty() {
        push_str(&mut prompt, "\n\nTool results:\n");
        let ghost intro = prompt@;
        let mut j: usize = 0;
        assert(steps.take(0) =~= Seq::<StepView>::empty());
        while j < trace.len()
            invariant
                steps == trace@,
                0 <= j <= steps.len(),
                prompt@ == intro + results_text(steps.take(j as int)),
            decreases steps.len() - j,
        {
            let step = trace.step(j);
            push_str(&mut prompt, "\n");
            push_str(&mut prompt, step.tool_name());
            push_str(&mut prompt, ": ");
            push_str(&mut prompt, step.result());
            push_str(&mut prompt, "\n");
            assert(steps.take(j + 1).drop_last() =~= steps.take(j as int));
            j = j + 1;
            assert(prompt@ =~= intro + results_text(steps.take(j as int)));
        }
        assert(steps.take(steps.len() as int) =~= steps);
    }
    push_str(&mut prompt, "\nGive only the final answer to the user.");
    assert(prompt@ =~= final_prompt(request@, steps));
    Ok(prompt)
}


/// The line a step contributes to the answer prompt: its tool name and the
/// JSON text of its result, on a line of their own after an empty one.
pub open spec fn result_line(step: StepView) -> Seq<char> {
    "\n"@ + step.tool_name + ": "@ + step.result + "\n"@
}

/// The results of two runs of steps, one after the other, list the results
/// of the first and then those of the second; no step is left out.
pub proof fn lemma_results_text_concat(a: Seq<StepView>, b: Seq<StepView>)
    ensures
        results_text(a + b) == results_text(a) + results_text(b),
    decreases b.len(),
{
    if b.len() == 0 {
        assert(a + b =~= a);
        assert(results_text(a) + Seq::<char>::empty() =~= results_text(a));
    } else {
        lemma_results_text_concat(a, b.drop_last());
        assert((a + b).drop_last() =~= a + b.drop_last());
        assert((a + b).last() == b.last());
        let l = b.last();
        assert(results_text(a + b) == results_text(a + b.drop_last()) + "\n"@ + l.tool_name + ": "@ + l.result + "\n"@);
        assert(results_text(b) == results_text(b.drop_last()) + "\n"@ + l.tool_name + ": "@ + l.result + "\n"@);
        assert(results_text(a + b) =~= results_text(a) + results_text(b));
    }
}

/// One step lists exactly its own line.
pub proof fn lemma_results_text_single(step: StepView)
    ensures
        results_text(seq![step]) == result_line(step),
{
    assert(seq![step].drop_last() =~= Seq::<StepView>::empty());
    assert(results_text(seq![step].drop_last()) == Seq::<char>::empty());
    assert(seq![step].last() == step);
    assert(results_text(seq![step]) == results_text(seq![step].drop_last()) + "\n"@ + step.tool_name + ": "@
        + step.result + "\n"@);
    assert(Seq::<char>::empty() + "\n"@ + step.tool_name + ": "@ + step.result + "\n"@ =~= result_line(step));
}

/// The answer prompt for a run of steps lists the result of every step, in
/// order: the line of step `i` follows the lines of the steps before it and
/// comes before those of the steps after it.
pub proof fn lemma_final_prompt_lists_every_result(request: Seq<char>, steps: Seq<StepView>, i: int)
    requires
        0 <= i < steps.len(),
    ensures
        final_prompt(request, steps) == "Answer the user request using the tool results below.\n\n"@
            + "User request:\n"@ + request + "\n\nTool results:\n"@ + results_text(steps.take(i))
            + result_line(steps[i]) + results_text(steps.skip(i + 1)) + "\nGive only the final answer to the user."@,
{
    let before = steps.take(i);
    let after = steps.skip(i + 1);
    assert(steps =~= before + seq![steps[i]] + after);
    lemma_results_text_concat(before + seq![steps[i]], after);
    lemma_results_text_concat(before, seq![steps[i]]);
    lemma_results_text_single(steps[i]);
    assert(results_text(steps) == results_text(before) + result_line(steps[i]) + results_text(after));
    assert(final_prompt(request, steps) =~= "Answer the user request using the tool results below.\n\n"@
        + "User request:\n"@ + request + "\n\nTool results:\n"@ + results_text(before) + result_line(steps[i])
        + results_text(after) + "\nGive only the final answer to the user."@);
}

} // verus!
