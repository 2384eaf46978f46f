use tiny_metal_llm::error::TinyError;
use tiny_metal_llm::generation::{greedy_next_token, reply_budget, GenerationConfig, GreedyRun};

fn logits(values: &[f32]) -> Vec<u32> {
    values.iter().map(|v| v.to_bits()).collect()
}

#[test]
fn greedy_picks_the_largest_finite_logit() {
    assert_eq!(greedy_next_token(&logits(&[0.1, 2.0, 0.5])).unwrap(), 1);
    assert_eq!(greedy_next_token(&logits(&[-3.0, -1.0, -2.0])).unwrap(), 1);
    assert_eq!(greedy_next_token(&logits(&[f32::NAN, f32::INFINITY, 1.0])).unwrap(), 2);
    assert_eq!(greedy_next_token(&logits(&[f32::NEG_INFINITY, -0.0, 0.0])).unwrap(), 2);
    assert_eq!(greedy_next_token(&logits(&[0.0, -0.0])).unwrap(), 0);
}

#[test]
fn greedy_prefers_the_last_of_equal_maxima() {
    assert_eq!(greedy_next_token(&logits(&[1.0, 3.0, 3.0, 2.0])).unwrap(), 2);
}

#[test]
fn greedy_without_finite_logits_fails() {
    assert!(matches!(greedy_next_token(&logits(&[f32::NAN, f32::INFINITY])), Err(TinyError::Sampling(_))));
    assert!(matches!(greedy_next_token(&[]), Err(TinyError::Sampling(_))));
}

#[test]
fn greedy_run_stops_at_end_token() {
    let mut run = GreedyRun::start(&[1, 2], 10, 100, Some(7)).unwrap();
    assert!(run.wants_token());
    assert!(run.accept(5));
    assert!(!run.accept(7));
    assert_eq!(run.tokens(), &[1, 2, 5, 7]);
}

#[test]
fn greedy_run_stops_at_context_and_budget() {
    let mut run = GreedyRun::start(&[1, 2], 10, 4, None).unwrap();
    assert!(run.accept(3));
    assert!(!run.accept(4));
    assert_eq!(run.into_tokens(), vec![1, 2, 3, 4]);

    let mut run = GreedyRun::start(&[1], 2, 100, None).unwrap();
    assert!(run.accept(9));
    assert!(!run.accept(9));
    assert!(!run.wants_token());

    let run = GreedyRun::start(&[1], 0, 100, None).unwrap();
    assert!(!run.wants_token());
}

#[test]
fn greedy_run_checks_the_prompt() {
    assert!(matches!(GreedyRun::start(&[], 1, 4, None), Err(TinyError::InvalidShape(_))));
    assert!(matches!(
        GreedyRun::start(&[1, 2, 3], 1, 2, None),
        Err(TinyError::PositionOutOfRange { start_pos: 0, seq_len: 3, max_seq_len: 2 })
    ));
}

#[test]
fn reply_budget_is_capped_by_the_context() {
    assert_eq!(reply_budget(10, 100, 64).unwrap(), 64);
    assert_eq!(reply_budget(90, 100, 64).unwrap(), 10);
    assert!(matches!(
        reply_budget(100, 100, 64),
        Err(TinyError::PositionOutOfRange { start_pos: 0, seq_len: 100, max_seq_len: 100 })
    ));
}

#[test]
fn vocab_sizes_must_match() {
    assert!(tiny_metal_llm::generation::check_vocab_sizes(100, 100).is_ok());
    assert!(matches!(
        tiny_metal_llm::generation::check_vocab_sizes(100, 99),
        Err(TinyError::Tokenizer(m)) if m == "tokenizer vocab size 100 does not match model vocab size 99"
    ));
}

fn settings(temperature: f32, top_k: Option<usize>, top_p: f32) -> GenerationConfig {
    GenerationConfig {
        max_new_tokens: 8,
        temperature: temperature.to_bits(),
        top_k,
        top_p: top_p.to_bits(),
        seed: 7,
    }
}

fn sampling_message(config: &GenerationConfig) -> String {
    match config.validate() {
        Err(TinyError::Sampling(m)) => m,
        other => panic!("expected a sampling error, got {other:?}"),
    }
}

#[test]
fn default_generation_config_is_greedy_and_valid() {
    let config = GenerationConfig::default();
    assert_eq!(config.max_new_tokens, 64);
    assert_eq!(f32::from_bits(config.temperature), 0.0);
    assert_eq!(config.top_k, None);
    assert_eq!(f32::from_bits(config.top_p), 1.0);
    assert_eq!(config.seed, 42);
    assert!(config.is_greedy());
    assert!(config.validate().is_ok());
}

#[test]
fn generation_config_accepts_usual_settings() {
    assert!(settings(0.7, Some(40), 0.9).validate().is_ok());
    assert!(settings(-0.0, None, 1.0).validate().is_ok());
    assert!(settings(-0.0, None, 1.0).is_greedy());
    assert!(!settings(0.7, None, 1.0).is_greedy());
}

#[test]
fn generation_config_rejects_bad_temperature() {
    for t in [-1.0f32, f32::NAN, f32::INFINITY, f32::NEG_INFINITY] {
        assert_eq!(sampling_message(&settings(t, None, 1.0)), "temperature must be finite and >= 0");
    }
}

#[test]
fn generation_config_rejects_bad_top_p() {
    for p in [0.0f32, -0.0, -0.5, 1.5, f32::NAN, f32::INFINITY] {
        assert_eq!(sampling_message(&settings(0.5, None, p)), "top_p must satisfy 0 < top_p <= 1");
    }
}

#[test]
fn generation_config_rejects_zero_top_k() {
    assert_eq!(sampling_message(&settings(0.5, Some(0), 1.0)), "top_k must be greater than 0");
    assert!(settings(0.5, Some(1), 1.0).validate().is_ok());
}

#[test]
fn greedy_step_appends_the_largest_logit() {
    let mut run = GreedyRun::start(&[1, 2], 3, 100, Some(2)).unwrap();
    assert_eq!(run.step(&logits(&[0.1, 2.0, 0.5])).unwrap(), (1, true));
    assert!(matches!(
        run.step(&logits(&[f32::NAN, f32::INFINITY])),
        Err(TinyError::Sampling(m)) if m == "no finite logits available"
    ));
    assert_eq!(run.tokens(), &[1, 2, 1]);
    assert_eq!(run.step(&logits(&[0.0, -1.0, 4.0])).unwrap(), (2, false));
    assert_eq!(run.tokens(), &[1, 2, 1, 2]);
}
