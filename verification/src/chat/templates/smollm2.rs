//! The ChatML template used by SmolLM2 models.
use vstd::prelude::*;

use crate::chat::conversation::Conversation;
use crate::chat::message::{role_name, MessageView, Role};
use crate::chat::template::ChatTemplate;
use crate::error::Result;
use crate::text::push_str;

verus! {

/// Opens a message in ChatML.
pub const IM_START: &'static str = "<|im_start|>";

/// Closes a message in ChatML.
pub const IM_END: &'static str = "<|im_end|>";

/// The system prompt used when a conversation does not open with one.
pub const DEFAULT_SYSTEM_PROMPT: &'static str = "You are a helpful AI assistant named SmolLM, trained by Hugging Face";

/// One ChatML message block.
pub open spec fn chatml_message(role: Seq<char>, content: Seq<char>) -> Seq<char> {
    IM_START@ + role + "\n"@ + content + IM_END@ + "\n"@
}

/// The ChatML blocks of `messages`, in order.
pub open spec fn chatml_messages(messages: Seq<MessageView>) -> Seq<char>
    decreases messages.len(),
{
    if messages.len() == 0 {
        Seq::empty()
    } else {
        chatml_messages(messages.drop_last()) + chatml_message(
            role_name(messages.last().role),
            messages.last().content,
        )
    }
}

/// The SmolLM2 rendering of `messages`: a default system block when the
/// first message is not a system message, every message's block, and the
/// opening of an assistant block when a reply is to be generated.
pub open spec fn smollm2_text(messages: Seq<MessageView>, add_generation_prompt: bool) -> Seq<char> {
    (if messages.len() > 0 && messages[0].role != Role::System {
        chatml_message("system"@, DEFAULT_SYSTEM_PROMPT@)
    } else {
        Seq::empty()
    }) + chatml_messages(messages) + (if add_generation_prompt {
        IM_START@ + "assistant\n"@
    } else {
        Seq::empty()
    })
}

/// Appends one ChatML message block to `output`.
pub fn push_message(output: &mut String, role: &str, content: &str)
    ensures
        final(output)@ == old(output)@ + chatml_message(role@, content@),
{
    push_str(output, IM_START);
    push_str(output, role);
    push_str(output, "\n");
    push_str(output, content);
    push_str(output, IM_END);
    push_str(output, "\n");
    assert(output@ =~= old(output)@ + chatml_message(role@, content@));
}

/// The SmolLM2 chat template.
#[derive(Debug, Clone, Copy)]
pub struct SmolLm2Template;

impl SmolLm2Template {
    /// The template.
    pub fn new() -> (t: Self) {
        SmolLm2Template
    }
}

impl Default for SmolLm2Template {
    /// The template.
    fn default() -> (t: Self) {
        SmolLm2Template
    }
}

impl ChatTemplate for SmolLm2Template {
    /// `render` is verified against `spec_render`.
    open spec fn obeys_render_spec(&self) -> bool {
        true
    }

    /// Always the SmolLM2 text of the messages.
    open spec fn spec_render(&self, conversation: Seq<MessageView>, add_generation_prompt: bool) -> Option<Seq<char>> {
        Some(smollm2_text(conversation, add_generation_prompt))
    }

    fn render(&self, conversation: &Conversation, add_generation_prompt: bool) -> (r: Result<String>)
        ensures
            r matches Ok(s) && s@ == smollm2_text(conversation@, add_generation_prompt),
    {
        let ghost messages = conversation@;
        let mut output = String::new();
        let n = conversation.len();
        if n > 0 && conversation.message(0).role() != Role::System {
            push_message(&mut output, "system", DEFAULT_SYSTEM_PROMPT);
        }
        let ghost head = output@;
        let mut i: usize = 0;
        assert(messages.take(0) =~= Seq::<MessageView>::empty());
        while i < n
            invariant
                messages == conversation@,
                n == messages.len(),
                0 <= i <= n,
                output@ == head + chatml_messages(messages.take(i as int)),
            decreases n - i,
        {
            let m = conversation.message(i);
            push_message(&mut output, m.role().as_str(), m.content());
            assert(messages.take(i + 1).drop_last() =~= messages.take(i as int));
            i = i + 1;
            assert(output@ =~= head + chatml_messages(messages.take(i as int)));
        }
        assert(messages.take(n as int) =~= messages);
        if add_generation_prompt {
            push_str(&mut output, IM_START);
            push_str(&mut output, "assistant\n");
        }
        assert(output@ =~= smollm2_text(messages, add_generation_prompt));
        Ok(output)
    }
}

} // verus!
