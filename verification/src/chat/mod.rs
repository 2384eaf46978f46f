//! Chat conversations and the templates that render them for a model.
pub mod conversation;
pub mod message;
pub mod session;

pub use conversation::Conversation;
pub use message::{Message, Role};
pub mod template;
pub mod templates;

pub use template::ChatTemplate;
pub mod inference;

pub use inference::{prepare_chat_prompt, PreparedChatPrompt};
