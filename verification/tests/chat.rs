use std::cell::RefCell;

use tiny_metal_llm::chat::templates::smollm2::push_message;
use tiny_metal_llm::chat::templates::SmolLm2Template;
use tiny_metal_llm::chat::{prepare_chat_prompt, ChatTemplate, Conversation, Message, PreparedChatPrompt, Role};
use tiny_metal_llm::error::{Result, TinyError};
use tiny_metal_llm::tokenizer::Tokenizer;

#[test]
fn role_string_matches_chat_role_names() {
    assert_eq!(Role::System.as_str(), "system");
    assert_eq!(Role::User.as_str(), "user");
    assert_eq!(Role::Assistant.as_str(), "assistant");
}

#[test]
fn creates_user_message() {
    let message = Message::user("Hello");

    assert_eq!(message.role(), Role::User);
    assert_eq!(message.content(), "Hello");
}

#[test]
fn creates_system_message() {
    let message = Message::system("You are a helpful assistant.");

    assert_eq!(message.role(), Role::System);
    assert_eq!(message.content(), "You are a helpful assistant.");
}

#[test]
fn creates_assistant_message() {
    let message = Message::assistant("Hello!");

    assert_eq!(message.role(), Role::Assistant);
    assert_eq!(message.content(), "Hello!");
}

#[test]
fn new_conversation_is_empty() {
    let conversation = Conversation::new();

    assert!(conversation.is_empty());
    assert_eq!(conversation.len(), 0);
    assert!(conversation.last().is_none());
}

#[test]
fn creates_conversation_with_system_message() {
    let conversation = Conversation::with_system("You are a helpful assistant.");

    assert_eq!(conversation.len(), 1);

    let message = conversation.last().unwrap();

    assert_eq!(message.role(), Role::System);
    assert_eq!(message.content(), "You are a helpful assistant.");
}

#[test]
fn appends_messages_in_order() {
    let mut conversation = Conversation::new();

    conversation.push_system("You are helpful.");
    conversation.push_user("Hello");
    conversation.push_assistant("Hi!");
    conversation.push_user("What did I say?");

    assert_eq!(conversation.len(), 4);
    assert_eq!(conversation.messages()[0].role(), Role::System);
    assert_eq!(conversation.messages()[1].role(), Role::User);
    assert_eq!(conversation.messages()[1].content(), "Hello");
    assert_eq!(conversation.messages()[2].role(), Role::Assistant);
    assert_eq!(conversation.messages()[3].role(), Role::User);
}

#[test]
fn accepts_existing_message() {
    let mut conversation = Conversation::new();

    conversation.push(Message::user("Hello"));

    assert_eq!(conversation.len(), 1);
    assert_eq!(conversation.messages()[0], Message::user("Hello"));
}

#[test]
fn creates_from_existing_messages() {
    let conversation =
        Conversation::from_messages(vec![Message::system("Be concise."), Message::user("Hello")]);

    assert_eq!(conversation.len(), 2);
    assert_eq!(conversation.messages()[0].role(), Role::System);
    assert_eq!(conversation.messages()[1].role(), Role::User);
}

#[test]
fn clears_messages() {
    let mut conversation = Conversation::with_system("System");

    conversation.push_user("Hello");

    assert_eq!(conversation.len(), 2);

    conversation.clear();

    assert!(conversation.is_empty());
}

#[test]
fn default_conversation_is_empty() {
    let conversation = Conversation::default();
    assert!(conversation.is_empty());
    assert_eq!(conversation, Conversation::new());
}

#[test]
fn message_accessor_returns_each_message() {
    let mut conversation = Conversation::with_system("S");
    conversation.push_user("U");
    assert_eq!(conversation.message(1).content(), "U");
    assert_eq!(conversation.last().unwrap().role(), Role::User);
}

struct TestTemplate;

impl ChatTemplate for TestTemplate {
    fn render(&self, conversation: &Conversation, add_generation_prompt: bool) -> Result<String> {
        let mut output = String::new();

        for message in conversation.messages() {
            output.push_str(message.role().as_str());
            output.push(':');
            output.push_str(message.content());
            output.push('\n');
        }

        if add_generation_prompt {
            output.push_str("assistant:");
        }

        Ok(output)
    }
}

#[test]
fn renders_conversation_through_template() {
    let mut conversation = Conversation::with_system("Be helpful.");

    conversation.push_user("Hello");

    let rendered = TestTemplate.render(&conversation, true).unwrap();

    assert_eq!(rendered, "system:Be helpful.\nuser:Hello\nassistant:");
}

#[test]
fn can_render_without_generation_prompt() {
    let mut conversation = Conversation::new();

    conversation.push_user("Hello");

    let rendered = TestTemplate.render(&conversation, false).unwrap();

    assert_eq!(rendered, "user:Hello\n");
}

#[test]
fn renders_explicit_system_message() {
    let mut conversation = Conversation::with_system("You are concise.");

    conversation.push_user("Hello");

    let rendered = SmolLm2Template::new().render(&conversation, true).unwrap();

    assert_eq!(
        rendered,
        "<|im_start|>system\nYou are concise.<|im_end|>\n<|im_start|>user\nHello<|im_end|>\n<|im_start|>assistant\n"
    );
}

#[test]
fn inserts_default_system_prompt_when_missing() {
    let mut conversation = Conversation::new();

    conversation.push_user("Hello");

    let rendered = SmolLm2Template::new().render(&conversation, true).unwrap();

    assert_eq!(
        rendered,
        "<|im_start|>system\nYou are a helpful AI assistant named SmolLM, trained by Hugging Face<|im_end|>\n<|im_start|>user\nHello<|im_end|>\n<|im_start|>assistant\n"
    );
}

#[test]
fn renders_multi_turn_conversation() {
    let mut conversation = Conversation::with_system("Be helpful.");

    conversation.push_user("Hello");
    conversation.push_assistant("Hi!");
    conversation.push_user("What did I say?");

    let rendered = SmolLm2Template::new().render(&conversation, true).unwrap();

    assert_eq!(
        rendered,
        "<|im_start|>system\nBe helpful.<|im_end|>\n<|im_start|>user\nHello<|im_end|>\n<|im_start|>assistant\nHi!<|im_end|>\n<|im_start|>user\nWhat did I say?<|im_end|>\n<|im_start|>assistant\n"
    );
}

#[test]
fn does_not_append_generation_prompt_when_disabled() {
    let mut conversation = Conversation::with_system("Be helpful.");

    conversation.push_user("Hello");
    conversation.push_assistant("Hi!");

    let rendered = SmolLm2Template::new().render(&conversation, false).unwrap();

    assert_eq!(
        rendered,
        "<|im_start|>system\nBe helpful.<|im_end|>\n<|im_start|>user\nHello<|im_end|>\n<|im_start|>assistant\nHi!<|im_end|>\n"
    );
}

#[test]
fn empty_conversation_renders_only_generation_prompt() {
    let rendered = SmolLm2Template::new().render(&Conversation::new(), true).unwrap();
    assert_eq!(rendered, "<|im_start|>assistant\n");
    let rendered = SmolLm2Template::new().render(&Conversation::new(), false).unwrap();
    assert_eq!(rendered, "");
}

#[test]
fn assistant_first_conversation_gets_default_system_prompt() {
    let mut conversation = Conversation::new();
    conversation.push_assistant("Hi!");
    let rendered = SmolLm2Template::new().render(&conversation, false).unwrap();
    assert_eq!(
        rendered,
        "<|im_start|>system\nYou are a helpful AI assistant named SmolLM, trained by Hugging Face<|im_end|>\n<|im_start|>assistant\nHi!<|im_end|>\n"
    );
}

#[test]
fn push_message_writes_one_block() {
    let mut out = String::from("x");
    push_message(&mut out, "user", "Hi");
    assert_eq!(out, "x<|im_start|>user\nHi<|im_end|>\n");
}

#[derive(Default)]
struct RecordingTokenizer {
    encoded_text: RefCell<Option<String>>,
}

impl Tokenizer for RecordingTokenizer {
    fn encode(&self, text: &str) -> Result<Vec<u32>> {
        *self.encoded_text.borrow_mut() = Some(text.to_string());
        Ok(vec![10, 20, 30])
    }

    fn decode(&self, _token_ids: &[u32], _skip_special_tokens: bool) -> Result<String> {
        Ok(String::new())
    }

    fn vocab_size(&self) -> usize {
        100
    }

    fn bos_token_id(&self) -> Option<u32> {
        None
    }

    fn eos_token_id(&self) -> Option<u32> {
        Some(99)
    }
}

#[test]
fn prepares_chat_prompt_from_conversation() {
    let tokenizer = RecordingTokenizer::default();

    let template = SmolLm2Template::new();

    let mut conversation = Conversation::with_system("Be concise.");

    conversation.push_user("Hello");

    let prepared = prepare_chat_prompt(&tokenizer, &template, &conversation).unwrap();

    assert_eq!(
        prepared.text(),
        "<|im_start|>system\nBe concise.<|im_end|>\n<|im_start|>user\nHello<|im_end|>\n<|im_start|>assistant\n",
    );

    assert_eq!(prepared.token_ids(), &[10, 20, 30]);

    assert_eq!(tokenizer.encoded_text.borrow().as_deref(), Some(prepared.text()));
}

#[test]
fn prepared_prompt_reports_token_length() {
    let tokenizer = RecordingTokenizer::default();

    let template = SmolLm2Template::new();

    let mut conversation = Conversation::new();

    conversation.push_user("Hello");

    let prepared = prepare_chat_prompt(&tokenizer, &template, &conversation).unwrap();

    assert_eq!(prepared.len(), 3);

    assert!(!prepared.is_empty());
}

struct SilentTokenizer;

impl Tokenizer for SilentTokenizer {
    fn encode(&self, _text: &str) -> Result<Vec<u32>> {
        Ok(Vec::new())
    }

    fn decode(&self, _token_ids: &[u32], _skip_special_tokens: bool) -> Result<String> {
        Ok(String::new())
    }

    fn vocab_size(&self) -> usize {
        1
    }

    fn bos_token_id(&self) -> Option<u32> {
        None
    }

    fn eos_token_id(&self) -> Option<u32> {
        None
    }
}

#[test]
fn prompt_without_tokens_is_a_tokenizer_error() {
    let conversation = Conversation::with_system("S");
    let result = prepare_chat_prompt(&SilentTokenizer, &SmolLm2Template::new(), &conversation);
    assert!(matches!(result, Err(TinyError::Tokenizer(_))));
    assert!(matches!(
        PreparedChatPrompt::from_parts("x".to_string(), Vec::new()),
        Err(TinyError::Tokenizer(_))
    ));
    let prepared = PreparedChatPrompt::from_parts("x".to_string(), vec![7]).unwrap();
    assert_eq!(prepared.text(), "x");
    assert_eq!(prepared.token_ids(), &[7]);
}

use tiny_metal_llm::chat::session::{new_conversation, read_chat_input, ChatInput};

#[test]
fn new_session_uses_a_non_blank_system_prompt() {
    assert_eq!(new_conversation(Some("Be brief.")).len(), 1);
    assert_eq!(new_conversation(Some("Be brief.")).last().unwrap().content(), "Be brief.");
    assert!(new_conversation(Some("  ")).is_empty());
    assert!(new_conversation(None).is_empty());
}

#[test]
fn chat_lines_are_commands_or_messages() {
    assert_eq!(read_chat_input("/exit\n"), ChatInput::Exit);
    assert_eq!(read_chat_input("/quit\r\n"), ChatInput::Exit);
    assert_eq!(read_chat_input("/clear"), ChatInput::Clear);
    assert_eq!(read_chat_input("   \n"), ChatInput::Skip);
    assert_eq!(read_chat_input(" hello \r\n"), ChatInput::Message(" hello ".to_string()));
    assert_eq!(read_chat_input("/exit now\n"), ChatInput::Message("/exit now".to_string()));
}
