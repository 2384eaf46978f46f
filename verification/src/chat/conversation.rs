//! A conversation: the messages exchanged so far, in order.
use vstd::prelude::*;

use crate::chat::message::{Message, MessageView, Role};

verus! {

/// The messages of a chat, in the order they were sent.
#[derive(Debug, Clone, PartialEq, Eq)]
pub struct Conversation {
    messages: Vec<Message>,
}

impl View for Conversation {
    type V = Seq<MessageView>;

    closed spec fn view(&self) -> Seq<MessageView> {
        self.messages@.map_values(|m: Message| m@)
    }
}

impl Conversation {
    /// An empty conversation.
    pub fn new() -> (c: Self)
        ensures
            c@ == Seq::<MessageView>::empty(),
    {
        let c = Conversation { messages: Vec::new() };
        assert(c@ =~= Seq::<MessageView>::empty());
        c
    }

    /// A conversation opened by a system message.
    pub fn with_system(content: &str) -> (c: Self)
        ensures
            c@ == seq![MessageView { role: Role::System, content: content@ }],
    {
        let mut c = Conversation::new();
        c.push_system(content);
        assert(c@ =~= seq![MessageView { role: Role::System, content: content@ }]);
        c
    }

    /// A conversation made of the given messages.
    pub fn from_messages(messages: Vec<Message>) -> (c: Self)
        ensures
            c@ == messages@.map_values(|m: Message| m@),
    {
        Conversation { messages }
    }

    /// Appends a message.
    pub fn push(&mut self, message: Message)
        ensures
            final(self)@ == old(self)@.push(message@),
    {
        self.messages.push(message);
        assert(self@ =~= old(self)@.push(message@));
    }

    /// Appends a system message.
    pub fn push_system(&mut self, content: &str)
        ensures
            final(self)@ == old(self)@.push(MessageView { role: Role::System, content: content@ }),
    {
        self.push(Message::system(content));
    }

    /// Appends a user message.
    pub fn push_user(&mut self, content: &str)
        ensures
            final(self)@ == old(self)@.push(MessageView { role: Role::User, content: content@ }),
    {
        self.push(Message::user(content));
    }

    /// Appends an assistant message.
    pub fn push_assistant(&mut self, content: &str)
        ensures
            final(self)@ == old(self)@.push(MessageView { role: Role::Assistant, content: content@ }),
    {
        self.push(Message::assistant(content));
    }

    /// The messages in order.
    pub fn messages(&self) -> (s: &[Message])
        ensures
            s@.map_values(|m: Message| m@) == self@,
    {
        self.messages.as_slice()
    }

    /// Number of messages.
    pub fn len(&self) -> (n: usize)
        ensures
            n == self@.len(),
    {
        self.messages.len()
    }

    /// Whether there is no message.
    pub fn is_empty(&self) -> (b: bool)
        ensures
            b == (self@.len() == 0),
    {
        self.messages.len() == 0
    }

    /// The most recent message, if any.
    pub fn last(&self) -> (r: Option<&Message>)
        ensures
            r is Some <==> self@.len() > 0,
            r matches Some(m) ==> m@ == self@.last(),
    {
        if self.messages.len() == 0 {
            None
        } else {
            Some(&self.messages[self.messages.len() - 1])
        }
    }

    /// The `i`-th message.
    pub fn message(&self, i: usize) -> (m: &Message)
        requires
            i < self@.len(),
        ensures
            m@ == self@[i as int],
    {
        &self.messages[i]
    }

    /// Removes every message.
    pub fn clear(&mut self)
        ensures
            final(self)@ == Seq::<MessageView>::empty(),
    {
        self.messages.clear();
        assert(self@ =~= Seq::<MessageView>::empty());
    }
}

impl Default for Conversation {
    /// An empty conversation.
    fn default() -> (c: Self)
        ensures
            c@ == Seq::<MessageView>::empty(),
    {
        Conversation::new()
    }
}

} // verus!
