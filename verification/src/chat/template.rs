//! Chat templates: how a conversation becomes model input text.
use vstd::prelude::*;

use crate::chat::conversation::Conversation;
use crate::chat::message::MessageView;
use crate::error::Result;

verus! {

/// Renders a conversation as the text a model is prompted with.
pub trait ChatTemplate {
    /// Whether `render` is known to follow [`spec_render`](Self::spec_render).
    /// Nothing is claimed of an implementation that does not say so.
    open spec fn obeys_render_spec(&self) -> bool {
        false
    }

    /// The prompt text this template gives the messages `conversation`, or
    /// `None` where it refuses them.
    open spec fn spec_render(&self, conversation: Seq<MessageView>, add_generation_prompt: bool) -> Option<Seq<char>> {
        None
    }

    /// The conversation as prompt text; with `add_generation_prompt` the
    /// text ends where the assistant's reply begins.
    fn render(&self, conversation: &Conversation, add_generation_prompt: bool) -> (r: Result<String>)
        ensures
            self.obeys_render_spec() ==> (r is Ok <==> self.spec_render(conversation@, add_generation_prompt) is Some),
            self.obeys_render_spec() ==> (r matches Ok(s) ==> self.spec_render(conversation@, add_generation_prompt)
                == Some(s@)),
    ;
}

} // verus!
