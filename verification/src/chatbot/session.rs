use vstd::prelude::*;
use crate::chatbot::config::AppState;
use crate::chatbot::models::{build_system_prompt, message_views, plain_message, system_prompt, Message};
use crate::chatbot::sse::starts_with;
use crate::chatbot::tools::same;
use crate::text::{chars_occur_at, chars_of};

verus! {

/// What a line the user typed asks for, tried in this order: nothing typed, the model
/// choice, the command help, the tool listing, a `/system` command, or a chat message.
#[derive(Debug, Clone, Copy, PartialEq, Eq, Structural)]
pub enum InputRoute {
    Skip,
    SelectModel,
    Help,
    Tools,
    System,
    Chat,
}

/// Where a typed line goes.
pub open spec fn input_route(input: Seq<char>) -> InputRoute {
    if input.len() == 0 {
        InputRoute::Skip
    } else if input == "/model"@ {
        InputRoute::SelectModel
    } else if input == "/help"@ {
        InputRoute::Help
    } else if input == "/tools"@ {
        InputRoute::Tools
    } else if starts_with(input, "/system"@) {
        InputRoute::System
    } else {
        InputRoute::Chat
    }
}

/// Where a typed line goes (see [`input_route`]).
pub fn route_input(input: &str) -> (r: InputRoute)
    ensures
        r == input_route(input@),
{
    let chars = chars_of(input);
    if chars.len() == 0 {
        InputRoute::Skip
    } else if same(&chars, &chars_of("/model")) {
        InputRoute::SelectModel
    } else if same(&chars, &chars_of("/help")) {
        InputRoute::Help
    } else if same(&chars, &chars_of("/tools")) {
        InputRoute::Tools
    } else if chars_occur_at(&chars, &chars_of("/system"), 0) {
        InputRoute::System
    } else {
        InputRoute::Chat
    }
}

/// The conversation a session starts with: the system prompt for its settings.
pub fn start_conversation(state: &AppState) -> (messages: Vec<Message>)
    ensures
        message_views(messages@) == seq![
            plain_message("system"@, system_prompt(state.react_enabled, state.react_max_iterations as nat)),
        ],
{
    let mut messages: Vec<Message> = Vec::new();
    messages.push(Message::system(build_system_prompt(state.react_enabled, state.react_max_iterations)));
    assert(message_views(messages@) =~= seq![
        plain_message("system"@, system_prompt(state.react_enabled, state.react_max_iterations as nat)),
    ]);
    messages
}

/// Puts the system prompt for the current settings at the head of the conversation.
pub fn refresh_system_prompt(messages: &mut Vec<Message>, state: &AppState)
    requires
        old(messages)@.len() > 0,
    ensures
        message_views(final(messages)@) == message_views(old(messages)@).update(
            0,
            plain_message("system"@, system_prompt(state.react_enabled, state.react_max_iterations as nat)),
        ),
{
    let m = Message::system(build_system_prompt(state.react_enabled, state.react_max_iterations));
    let ghost mv = m@;
    messages.set(0, m);
    assert(message_views(messages@) =~= message_views(old(messages)@).update(0, mv));
}

/// Starts a turn: the user's text joins the conversation.
pub fn add_user_turn(messages: &mut Vec<Message>, input: String)
    ensures
        message_views(final(messages)@) == message_views(old(messages)@).push(plain_message("user"@, input@)),
{
    let m = Message::user(input);
    let ghost mv = m@;
    messages.push(m);
    assert(message_views(messages@) =~= message_views(old(messages)@).push(mv));
}

/// Ends a turn: an answer with text joins the conversation; an empty one leaves it as it is.
pub fn record_answer(messages: &mut Vec<Message>, answer: String)
    ensures
        answer@.len() > 0 ==> message_views(final(messages)@) == message_views(old(messages)@).push(
            plain_message("assistant"@, answer@),
        ),
        answer@.len() == 0 ==> message_views(final(messages)@) == message_views(old(messages)@),
{
    if answer.as_str().unicode_len() > 0 {
        let m = Message::assistant(answer);
        let ghost mv = m@;
        messages.push(m);
        assert(message_views(messages@) =~= message_views(old(messages)@).push(mv));
    }
}

} // verus!
