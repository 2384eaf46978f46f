//! Turning a conversation into the tokens a model is prompted with.
use vstd::prelude::*;

use crate::chat::conversation::Conversation;
use crate::chat::message::MessageView;
use crate::chat::template::ChatTemplate;
use crate::error::{Result, TinyError};
use crate::tokenizer::Tokenizer;

verus! {

/// A rendered chat prompt and its token ids.
#[derive(Debug, Clone, PartialEq, Eq)]
pub struct PreparedChatPrompt {
    text: String,
    token_ids: Vec<u32>,
}

impl PreparedChatPrompt {
    /// The rendered text.
    pub closed spec fn spec_text(&self) -> Seq<char> {
        self.text@
    }

    /// The token ids.
    pub closed spec fn spec_token_ids(&self) -> Seq<u32> {
        self.token_ids@
    }

    /// A prompt from its text and the token ids it encodes to; a prompt
    /// without tokens is refused.
    pub fn from_parts(text: String, token_ids: Vec<u32>) -> (r: Result<Self>)
        ensures
            r is Ok <==> token_ids@.len() > 0,
            r matches Ok(p) ==> p.spec_text() == text@ && p.spec_token_ids() == token_ids@,
            r matches Err(e) ==> e matches TinyError::Tokenizer(m) && m@ == "chat prompt produced no tokens"@,
    {
        if token_ids.len() == 0 {
            return Err(TinyError::Tokenizer("chat prompt produced no tokens".to_string()));
        }
        Ok(PreparedChatPrompt { text, token_ids })
    }

    /// The rendered text.
    pub fn text(&self) -> (s: &str)
        ensures
            s@ == self.spec_text(),
    {
        self.text.as_str()
    }

    /// The token ids.
    pub fn token_ids(&self) -> (s: &[u32])
        ensures
            s@ == self.spec_token_ids(),
    {
        self.token_ids.as_slice()
    }

    /// Number of tokens.
    pub fn len(&self) -> (n: usize)
        ensures
            n == self.spec_token_ids().len(),
    {
        self.token_ids.len()
    }

    /// Whether there is no token.
    pub fn is_empty(&self) -> (b: bool)
        ensures
            b == (self.spec_token_ids().len() == 0),
    {
        self.token_ids.len() == 0
    }
}

/// What preparing the messages `conversation` gives, by the specifications
/// of the template and the tokenizer: success exactly when the text with a
/// generation prompt renders and encodes to at least one token, the text and
/// token ids being those, and the refusal of an empty encoding.
pub open spec fn prepared_as_specified<T: Tokenizer, C: ChatTemplate>(
    tokenizer: &T,
    template: &C,
    conversation: Seq<MessageView>,
    r: Result<PreparedChatPrompt>,
) -> bool {
    &&& r is Ok <==> (template.spec_render(conversation, true) matches Some(text) && tokenizer.spec_encode(
        text,
    ) matches Some(ids) && ids.len() > 0)
    &&& r matches Ok(p) ==> template.spec_render(conversation, true) == Some(p.spec_text())
        && tokenizer.spec_encode(p.spec_text()) == Some(p.spec_token_ids())
    &&& (template.spec_render(conversation, true) matches Some(text) && tokenizer.spec_encode(text) == Some(
        Seq::<u32>::empty(),
    )) ==> (r matches Err(e) && e matches TinyError::Tokenizer(m) && m@ == "chat prompt produced no tokens"@)
}

/// Renders the conversation with a generation prompt and encodes the text.
/// Fails as the template or the tokenizer fails, or when no token results.
pub fn prepare_chat_prompt<T: Tokenizer, C: ChatTemplate>(
    tokenizer: &T,
    template: &C,
    conversation: &Conversation,
) -> (r: Result<PreparedChatPrompt>)
    ensures
        r matches Ok(p) ==> p.spec_token_ids().len() > 0,
        template.obeys_render_spec() ==> (r matches Ok(p) ==> template.spec_render(conversation@, true) == Some(
            p.spec_text(),
        )),
        template.obeys_render_spec() ==> (template.spec_render(conversation@, true) is None ==> r is Err),
        tokenizer.obeys_encode_spec() ==> (r matches Ok(p) ==> tokenizer.spec_encode(p.spec_text()) == Some(
            p.spec_token_ids(),
        )),
        template.obeys_render_spec() && tokenizer.obeys_encode_spec() ==> prepared_as_specified(
            tokenizer,
            template,
            conversation@,
            r,
        ),
{
    let text = match template.render(conversation, true) {
        Ok(t) => t,
        Err(e) => {
            return Err(e);
        },
    };
    let token_ids = match tokenizer.encode(text.as_str()) {
        Ok(ids) => ids,
        Err(e) => {
            return Err(e);
        },
    };
    PreparedChatPrompt::from_parts(text, token_ids)
}

} // verus!
