use tiny_metal_llm::error::TinyError;

#[test]
fn error_messages_name_the_problem() {
    assert_eq!(TinyError::InvalidShape("x".to_string()).message(), "invalid shape: x");
    assert_eq!(
        TinyError::ShapeMismatch { left: vec![1, 2], right: vec![3] }.message(),
        "shape mismatch: left=[1, 2], right=[3]"
    );
    assert_eq!(
        TinyError::InvalidTokenId { token_id: 12, vocab_size: 10 }.message(),
        "invalid token id 12: vocabulary size is 10"
    );
    assert_eq!(
        TinyError::PositionOutOfRange { start_pos: 5, seq_len: 4, max_seq_len: 8 }.message(),
        "position range [5, 9) exceeds max sequence length 8"
    );
    assert_eq!(
        TinyError::PositionOutOfRange { start_pos: usize::MAX, seq_len: 1, max_seq_len: 8 }.message(),
        format!("position range [{}, {}) exceeds max sequence length 8", usize::MAX, usize::MAX as u128 + 1)
    );
    assert_eq!(TinyError::ShapeMismatch { left: vec![], right: vec![0] }.message(), "shape mismatch: left=[], right=[0]");
    assert_eq!(TinyError::Tool("t".to_string()).message(), "tool error: t");
}
