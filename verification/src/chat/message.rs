//! Chat messages and the roles that send them.
use vstd::prelude::*;

verus! {

/// Who sent a chat message.
#[derive(Debug, Clone, Copy, PartialEq, Eq, Structural)]
pub enum Role {
    System,
    User,
    Assistant,
}

/// The name a chat template gives a role.
pub open spec fn role_name(role: Role) -> Seq<char> {
    match role {
        Role::System => "system"@,
        Role::User => "user"@,
        Role::Assistant => "assistant"@,
    }
}

impl Role {
    /// The role's name: `system`, `user` or `assistant`.
    pub fn as_str(self) -> (s: &'static str)
        ensures
            s@ == role_name(self),
    {
        match self {
            Role::System => "system",
            Role::User => "user",
            Role::Assistant => "assistant",
        }
    }
}

/// One chat message.
#[derive(Debug, Clone, PartialEq, Eq)]
pub struct Message {
    role: Role,
    content: String,
}

/// The mathematical contents of a [`Message`].
pub struct MessageView {
    pub role: Role,
    pub content: Seq<char>,
}

impl View for Message {
    type V = MessageView;

    closed spec fn view(&self) -> MessageView {
        MessageView { role: self.role, content: self.content@ }
    }
}

impl Message {
    /// A message from `role` with the given text.
    pub fn new(role: Role, content: &str) -> (m: Self)
        ensures
            m@ == (MessageView { role, content: content@ }),
    {
        Message { role, content: content.to_string() }
    }

    /// A system message.
    pub fn system(content: &str) -> (m: Self)
        ensures
            m@ == (MessageView { role: Role::System, content: content@ }),
    {
        Message::new(Role::System, content)
    }

    /// A user message.
    pub fn user(content: &str) -> (m: Self)
        ensures
            m@ == (MessageView { role: Role::User, content: content@ }),
    {
        Message::new(Role::User, content)
    }

    /// An assistant message.
    pub fn assistant(content: &str) -> (m: Self)
        ensures
            m@ == (MessageView { role: Role::Assistant, content: content@ }),
    {
        Message::new(Role::Assistant, content)
    }

    /// Who sent the message.
    pub fn role(&self) -> (r: Role)
        ensures
            r == self@.role,
    {
        self.role
    }

    /// The message's text.
    pub fn content(&self) -> (s: &str)
        ensures
            s@ == self@.content,
    {
        self.content.as_str()
    }
}

} // verus!
