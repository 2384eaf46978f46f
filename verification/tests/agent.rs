use tiny_metal_llm::agent::decision::decide_agent_action;
use tiny_metal_llm::agent::run::{
    build_tool_request, decision_generation_config, final_answer, final_generation_config, AgentAction,
    AgentRun,
};
use tiny_metal_llm::generation::GenerationConfig;
use tiny_metal_llm::agent::{
    build_agent_decision_prompt, build_agent_final_prompt, parse_agent_decision, AgentConfig,
    AgentDecision, AgentStep, AgentTrace,
};
use tiny_metal_llm::error::TinyError;
use tiny_metal_llm::tools::ToolRegistry;

#[test]
fn creates_agent_config() {
    let config = AgentConfig::new(3).unwrap();

    assert_eq!(config.max_steps(), 3);
}

#[test]
fn rejects_zero_steps() {
    assert!(AgentConfig::new(0).is_err());
}

#[test]
fn default_agent_config_allows_five_steps() {
    assert_eq!(AgentConfig::default().max_steps(), 5);
    assert!(matches!(AgentConfig::new(0), Err(TinyError::InvalidArgument(_))));
}

fn calculator_registry() -> ToolRegistry {
    let mut registry = ToolRegistry::new();

    registry.register("calculator", "Performs calculations.").unwrap();

    registry
}

#[test]
fn parses_tool_decision() {
    assert_eq!(
        parse_agent_decision("calculator", &calculator_registry()).unwrap(),
        AgentDecision::Tool("calculator".to_string()),
    );
}

#[test]
fn parses_quoted_tool_decision() {
    assert_eq!(
        parse_agent_decision("\"calculator\"", &calculator_registry()).unwrap(),
        AgentDecision::Tool("calculator".to_string()),
    );
}

#[test]
fn parses_bullet_tool_decision() {
    assert_eq!(
        parse_agent_decision("- calculator solve this problem.", &calculator_registry()).unwrap(),
        AgentDecision::Tool("calculator".to_string()),
    );
}

#[test]
fn parses_prefixed_tool_decision() {
    assert_eq!(
        parse_agent_decision("Action: calculator", &calculator_registry()).unwrap(),
        AgentDecision::Tool("calculator".to_string()),
    );
}

#[test]
fn parses_final_decision() {
    assert_eq!(parse_agent_decision("final", &calculator_registry()).unwrap(), AgentDecision::Final);
}

#[test]
fn parses_final_case_insensitively() {
    assert_eq!(parse_agent_decision("FINAL", &calculator_registry()).unwrap(), AgentDecision::Final);
}

#[test]
fn parses_final_with_trailing_period() {
    assert_eq!(parse_agent_decision("final.", &calculator_registry()).unwrap(), AgentDecision::Final);
}

#[test]
fn rejects_unknown_action() {
    assert!(parse_agent_decision("fake_tool", &calculator_registry()).is_err());
}

#[test]
fn rejects_empty_decision() {
    assert!(parse_agent_decision("   ", &calculator_registry()).is_err());
}

#[test]
fn decision_errors_are_tool_errors() {
    let registry = calculator_registry();
    assert!(matches!(parse_agent_decision("", &registry), Err(TinyError::Tool(_))));
    match parse_agent_decision("  fake_tool ", &registry) {
        Err(TinyError::Tool(message)) => assert_eq!(message, "agent selected unknown action `fake_tool`"),
        other => panic!("unexpected {other:?}"),
    }
}

#[test]
fn parses_numbered_and_quoted_decisions() {
    let registry = calculator_registry();
    assert_eq!(
        parse_agent_decision("1. calculator", &registry).unwrap(),
        AgentDecision::Tool("calculator".to_string())
    );
    assert_eq!(
        parse_agent_decision("2) `calculator`", &registry).unwrap(),
        AgentDecision::Tool("calculator".to_string())
    );
    assert_eq!(
        parse_agent_decision("Next Action: final", &registry).unwrap(),
        AgentDecision::Final
    );
    assert_eq!(
        parse_agent_decision("* * tool: 'calculator'", &registry).unwrap(),
        AgentDecision::Tool("calculator".to_string())
    );
}

#[test]
fn scans_words_of_first_line_only() {
    let registry = calculator_registry();
    assert_eq!(
        parse_agent_decision("I will use (calculator) now\nfinal", &registry).unwrap(),
        AgentDecision::Tool("calculator".to_string())
    );
    assert!(parse_agent_decision("I think\ncalculator", &registry).is_err());
    assert_eq!(
        parse_agent_decision("The answer is final!", &registry).unwrap(),
        AgentDecision::Final
    );
}

#[test]
fn quoted_text_that_is_not_json_is_read_as_is() {
    let registry = calculator_registry();
    assert_eq!(
        parse_agent_decision("\"calculator \\q\"", &registry).unwrap(),
        AgentDecision::Tool("calculator".to_string())
    );
    assert_eq!(
        parse_agent_decision("\"\\u0063alculator\"", &registry).unwrap(),
        AgentDecision::Tool("calculator".to_string())
    );
}

#[test]
fn decide_reads_text_without_decoding() {
    let registry = calculator_registry();
    assert_eq!(decide_agent_action("  calculator  ", &registry), Some(AgentDecision::Tool("calculator".to_string())));
    assert_eq!(decide_agent_action("nothing here", &registry), None);
    assert_eq!(decide_agent_action("FiNaL", &registry), Some(AgentDecision::Final));
}

#[test]
fn decision_accessors() {
    let tool = AgentDecision::Tool("calculator".to_string());
    assert_eq!(tool.tool_name(), Some("calculator"));
    assert!(!tool.is_final());
    assert_eq!(AgentDecision::Final.tool_name(), None);
    assert!(AgentDecision::Final.is_final());
}

fn two_tool_registry() -> ToolRegistry {
    let mut registry = ToolRegistry::new();

    registry.register("calculator", "Performs arithmetic.").unwrap();

    registry.register("document_search", "Searches documents.").unwrap();

    registry
}

#[test]
fn builds_initial_agent_prompt() {
    let prompt =
        build_agent_decision_prompt("Find information about KV cache.", &AgentTrace::new(), &two_tool_registry())
            .unwrap();

    assert!(prompt.contains("calculator"));
    assert!(prompt.contains("document_search"));
    assert!(prompt.contains("final"));
    assert!(prompt.contains("Find information about KV cache."));
    assert!(!prompt.contains("Previous tool results:"));
}

#[test]
fn includes_previous_observations() {
    let mut trace = AgentTrace::new();

    trace.push(AgentStep::new(
        0,
        "document_search",
        "{\"query\":\"KV cache\"}",
        "{\"matches\":[{\"text\":\"KV cache avoids recomputation.\"}]}",
    ));

    let prompt = build_agent_decision_prompt("Find why KV cache is used.", &trace, &two_tool_registry()).unwrap();

    assert!(prompt.contains("Previous tool results:"));
    assert!(prompt.contains("document_search"));
    assert!(prompt.contains("KV cache avoids recomputation."));
}

#[test]
fn builds_final_prompt_from_trace() {
    let mut trace = AgentTrace::new();

    trace.push(AgentStep::new(
        0,
        "document_search",
        "{\"query\":\"KV cache\"}",
        "{\"matches\":[{\"text\":\"The KV cache avoids recomputing keys and values.\"}]}",
    ));

    let prompt = build_agent_final_prompt("Why does RustLLM use a KV cache?", &trace).unwrap();

    assert!(prompt.contains("Why does RustLLM use a KV cache?"));
    assert!(prompt.contains("The KV cache avoids recomputing keys and values."));
    assert!(prompt.contains("Give only the final answer"));
}

#[test]
fn rejects_empty_request() {
    assert!(build_agent_decision_prompt("   ", &AgentTrace::new(), &two_tool_registry()).is_err());
}

#[test]
fn decision_prompt_has_exact_layout() {
    let mut trace = AgentTrace::new();
    trace.push(AgentStep::new(0, "calculator", "{}", "{\"value\":5}"));
    let prompt = build_agent_decision_prompt("  What is 2+3?  ", &trace, &two_tool_registry()).unwrap();
    let expected = "Choose the next action needed to solve the user request.\n\
Use a tool when information or computation is still needed.\n\
If facts or documents must be looked up first, choose document_search before calculator.\n\
Choose final only when the existing tool results are enough to answer.\n\
Respond with ONLY the action name (e.g. document_search, calculator, or final).\n\
Do not write sentences or bullet points.\n\n\
Available actions:\n\
- calculator: Performs arithmetic.\n\
- document_search: Searches documents.\n\
- final: Give the final answer when no more tools are needed.\n\
\nPrevious tool results:\n\
\nStep 1:\nTool: calculator\nResult: {\"value\":5}\n\
\nUser request:\nWhat is 2+3?\n\nNext action:";
    assert_eq!(prompt, expected);
}

#[test]
fn decision_prompt_errors() {
    assert!(matches!(
        build_agent_decision_prompt("", &AgentTrace::new(), &ToolRegistry::new()),
        Err(TinyError::InvalidArgument(_))
    ));
    assert!(matches!(
        build_agent_decision_prompt("question", &AgentTrace::new(), &ToolRegistry::new()),
        Err(TinyError::Tool(_))
    ));
    assert!(matches!(build_agent_final_prompt(" \n", &AgentTrace::new()), Err(TinyError::InvalidArgument(_))));
}

#[test]
fn final_prompt_without_steps() {
    let prompt = build_agent_final_prompt("Hi", &AgentTrace::new()).unwrap();
    assert_eq!(
        prompt,
        "Answer the user request using the tool results below.\n\nUser request:\nHi\nGive only the final answer to the user."
    );
}

#[test]
fn records_agent_steps() {
    let mut trace = AgentTrace::new();

    trace.push(AgentStep::new(0, "calculator", "{\"left\":2,\"operator\":\"add\",\"right\":3}", "{\"value\":5}"));

    assert_eq!(trace.len(), 1);
    assert_eq!(trace.steps()[0].tool_name(), "calculator");

    let result: serde_json::Value = serde_json::from_str(trace.steps()[0].result()).unwrap();
    assert_eq!(result["value"], 5);
}

#[test]
fn step_accessors_return_what_was_recorded() {
    let step = AgentStep::new(4, "calculator", "{\"a\":1}", "{\"b\":2}");
    assert_eq!(step.index(), 4);
    assert_eq!(step.arguments(), "{\"a\":1}");
    assert_eq!(step.result(), "{\"b\":2}");
    let trace = AgentTrace::default();
    assert!(trace.is_empty());
}

#[test]
fn registry_refuses_duplicates_and_lists_by_name() {
    let mut registry = ToolRegistry::new();
    assert!(registry.is_empty());
    registry.register("zeta", "last").unwrap();
    registry.register("alpha", "first").unwrap();
    assert!(matches!(registry.register("zeta", "again"), Err(TinyError::Tool(_))));
    assert_eq!(registry.len(), 2);
    assert!(registry.contains("alpha"));
    assert!(!registry.contains("beta"));
    assert_eq!(registry.description("zeta"), Some("last"));
    assert_eq!(registry.description("beta"), None);
    assert_eq!(registry.tool_at(0), ("alpha", "first"));
    assert_eq!(registry.tool_at(1), ("zeta", "last"));
}

#[test]
fn tool_request_lists_previous_observations() {
    let mut trace = AgentTrace::new();
    assert_eq!(build_tool_request("Add 2 and 3", &trace), "Add 2 and 3");
    trace.push(AgentStep::new(0, "document_search", "{}", "\"found\""));
    assert_eq!(
        build_tool_request("Add 2 and 3", &trace),
        "Add 2 and 3\n\nPrevious tool observations:\ndocument_search: \"found\"\n"
    );
}

#[test]
fn agent_run_calls_tools_then_answers() {
    let registry = two_tool_registry();
    let config = AgentConfig::new(2).unwrap();
    let (mut run, action) = AgentRun::start("  What is 2+3?  ", &registry, &config).unwrap();
    assert!(matches!(action, AgentAction::Decide(ref p) if p.ends_with("What is 2+3?\n\nNext action:")));

    let action = run.on_decision(AgentDecision::Tool("calculator".to_string()), &registry).unwrap();
    match action {
        AgentAction::CallTool { tool_name, request } => {
            assert_eq!(tool_name, "calculator");
            assert_eq!(request, "What is 2+3?");
        }
        other => panic!("unexpected {other:?}"),
    }
    let action = run.on_tool_result("{\"left\":2}", "{\"value\":5}", &registry);
    assert!(matches!(action, AgentAction::Decide(ref p) if p.contains("Step 1:\nTool: calculator\nResult: {\"value\":5}")));
    assert_eq!(run.trace().len(), 1);
    assert_eq!(run.trace().steps()[0].index(), 0);

    let action = run.on_decision(AgentDecision::Tool("calculator".to_string()), &registry).unwrap();
    assert!(matches!(action, AgentAction::CallTool { ref request, .. }
        if request == "What is 2+3?\n\nPrevious tool observations:\ncalculator: {\"value\":5}\n"));
    let action = run.on_tool_result("{}", "{\"value\":6}", &registry);
    match action {
        AgentAction::Answer(prompt) => assert!(prompt.contains("calculator: {\"value\":6}")),
        other => panic!("unexpected {other:?}"),
    }
    assert_eq!(run.trace().len(), 2);
}

#[test]
fn agent_run_refuses_unknown_tool_and_answers_on_final() {
    let registry = two_tool_registry();
    let config = AgentConfig::default();
    let (mut run, _) = AgentRun::start("question", &registry, &config).unwrap();
    assert!(matches!(
        run.on_decision(AgentDecision::Tool("shell".to_string()), &registry),
        Err(TinyError::Tool(_))
    ));
    match run.on_decision(AgentDecision::Final, &registry).unwrap() {
        AgentAction::Answer(prompt) => assert_eq!(
            prompt,
            "Answer the user request using the tool results below.\n\nUser request:\nquestion\nGive only the final answer to the user."
        ),
        other => panic!("unexpected {other:?}"),
    }
}

#[test]
fn agent_run_start_errors() {
    let config = AgentConfig::default();
    assert!(matches!(AgentRun::start("q", &ToolRegistry::new(), &config), Err(TinyError::Tool(_))));
    assert!(matches!(
        AgentRun::start("   ", &two_tool_registry(), &config),
        Err(TinyError::InvalidArgument(_))
    ));
}

#[test]
fn final_answer_is_trimmed_and_not_empty() {
    assert_eq!(final_answer("  42\n").unwrap(), "42");
    assert!(matches!(final_answer(" \t\n"), Err(TinyError::Tool(_))));
}

#[test]
fn decision_is_generated_greedily_with_few_tokens() {
    let run_config = GenerationConfig {
        max_new_tokens: 200,
        temperature: 0.8f32.to_bits(),
        top_k: Some(5),
        top_p: 0.9f32.to_bits(),
        seed: 11,
    };
    let decision = decision_generation_config(&run_config);
    assert_eq!(decision.max_new_tokens, 16);
    assert!(decision.is_greedy());
    assert_eq!(decision.top_k, None);
    assert_eq!(f32::from_bits(decision.top_p), 1.0);
    assert_eq!(decision.seed, 11);
    assert!(decision.validate().is_ok());
}

#[test]
fn final_answer_keeps_settings_and_caps_length() {
    let run_config = GenerationConfig {
        max_new_tokens: 200,
        temperature: 0.8f32.to_bits(),
        top_k: Some(5),
        top_p: 0.9f32.to_bits(),
        seed: 11,
    };
    let answer = final_generation_config(&run_config);
    assert_eq!(answer.max_new_tokens, 64);
    assert_eq!(answer.temperature, run_config.temperature);
    assert_eq!(answer.top_k, Some(5));
    assert_eq!(answer.top_p, run_config.top_p);
    assert_eq!(answer.seed, 11);
    let short = GenerationConfig { max_new_tokens: 10, ..run_config };
    assert_eq!(final_generation_config(&short).max_new_tokens, 10);
}
