//! The decisions of an interactive chat session: how it starts, and what a
//! line typed by the user asks for.
use vstd::prelude::*;

use crate::chat::conversation::Conversation;
use crate::chat::message::{MessageView, Role};
use crate::text::{chars_of, trim, trim_range};

verus! {

/// A conversation for a new session: opened by the system prompt when one
/// is given that is not blank, empty otherwise.
pub fn new_conversation(system: Option<&str>) -> (c: Conversation)
    ensures
        system matches Some(s) && trim(s@).len() > 0 ==> c@ == seq![MessageView { role: Role::System, content: system->0@ }],
        !(system matches Some(s) && trim(s@).len() > 0) ==> c@ == Seq::<MessageView>::empty(),
{
    match system {
        Some(s) => {
            let chars = chars_of(s);
            let n = chars.len();
            assert(chars@.subrange(0, n as int) =~= chars@);
            let (a, b) = trim_range(&chars, 0, n);
            if a < b {
                Conversation::with_system(s)
            } else {
                Conversation::new()
            }
        },
        None => Conversation::new(),
    }
}

/// What a line typed in a chat session asks for.
#[derive(Debug, Clone, PartialEq, Eq)]
pub enum ChatInput {
    /// End the session (`/exit` or `/quit`).
    Exit,
    /// Start the conversation over (`/clear`).
    Clear,
    /// Nothing (a blank line).
    Skip,
    /// Send this text as the user's message.
    Message(String),
}

/// The line without its trailing carriage returns and line feeds.
pub open spec fn strip_line_end(line: Seq<char>) -> Seq<char>
    decreases line.len(),
{
    if line.len() > 0 && (line.last() == '\r' || line.last() == '\n') {
        strip_line_end(line.drop_last())
    } else {
        line
    }
}

fn line_end(chars: &Vec<char>, end: usize) -> (r: usize)
    requires
        end <= chars.len(),
    ensures
        r <= end,
        chars@.subrange(0, r as int) == strip_line_end(chars@.subrange(0, end as int)),
    decreases end,
{
    if end > 0 && (chars[end - 1] == '\r' || chars[end - 1] == '\n') {
        assert(chars@.subrange(0, end as int).drop_last() =~= chars@.subrange(0, end - 1));
        line_end(chars, end - 1)
    } else {
        end
    }
}

/// Reads a line typed in a chat session: `/exit` and `/quit` end it,
/// `/clear` starts over, a blank line is skipped, and anything else is the
/// user's message (without its line ending).
pub fn read_chat_input(line: &str) -> (r: ChatInput)
    ensures
        ({
            let input = strip_line_end(line@);
            &&& (input == "/exit"@ || input == "/quit"@) <==> r is Exit
            &&& input == "/clear"@ <==> r is Clear
            &&& (input != "/exit"@ && input != "/quit"@ && input != "/clear"@ && trim(input).len() == 0) <==> r is Skip
            &&& r matches ChatInput::Message(m) ==> m@ == input
        }),
{
    let chars = chars_of(line);
    let n = chars.len();
    let e = line_end(&chars, n);
    assert(chars@.subrange(0, n as int) =~= line@);
    let input = crate::text::string_of(&chars, 0, e);
    let exit = chars_of("/exit");
    let quit = chars_of("/quit");
    let clear = chars_of("/clear");
    proof {
        reveal_strlit("/exit");
        reveal_strlit("/quit");
        reveal_strlit("/clear");
    }
    assert("/exit"@.len() == 5 && "/quit"@.len() == 5 && "/clear"@.len() == 6);
    assert("/exit"@ != "/quit"@) by {
        assert("/exit"@[1] != "/quit"@[1]);
    }
    if crate::text::range_eq(&chars, 0, e, &exit) || crate::text::range_eq(&chars, 0, e, &quit) {
        return ChatInput::Exit;
    }
    if crate::text::range_eq(&chars, 0, e, &clear) {
        return ChatInput::Clear;
    }
    let (a, b) = trim_range(&chars, 0, e);
    if a == b {
        return ChatInput::Skip;
    }
    ChatInput::Message(input)
}

} // verus!
