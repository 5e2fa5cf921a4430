use vstd::prelude::*;
use crate::text::{decimal, push_decimal_digits, push_str};

verus! {

/// The system prompt every conversation starts from.
pub const BASE_SYSTEM_PROMPT: &'static str = "You are a helpful assistant. You may use the run_bash_command tool when shell output is needed. Before using it, prefer concise, relevant commands and avoid destructive operations unless the user explicitly asked for them.";

/// What the system prompt adds, before the iteration bound, when ReAct is on.
pub const REACT_PROMPT_HEAD: &'static str = "\n\nReAct mode is enabled.\n- Think privately and do not reveal chain-of-thought.\n- Work in bounded reason/action/reflection iterations.\n- Use tools only when necessary.\n- Reflect on whether the answer is sufficient.\n- Continue only if the answer is still insufficient.\n- Stop after at most ";

/// What the system prompt adds after the iteration bound when ReAct is on.
pub const REACT_PROMPT_TAIL: &'static str = " iterations and produce the best possible final answer.\n- Keep any visible phase summaries concise.";

/// The system prompt: the base prompt, followed by the ReAct rules with the iteration
/// bound when ReAct is on.
pub open spec fn system_prompt(react_enabled: bool, max_iterations: nat) -> Seq<char> {
    if !react_enabled {
        BASE_SYSTEM_PROMPT@
    } else {
        BASE_SYSTEM_PROMPT@ + REACT_PROMPT_HEAD@ + decimal(max_iterations as int) + REACT_PROMPT_TAIL@
    }
}

/// The system prompt for the given ReAct settings (see [`system_prompt`]).
pub fn build_system_prompt(react_enabled: bool, max_iterations: usize) -> (prompt: String)
    ensures
        prompt@ == system_prompt(react_enabled, max_iterations as nat),
{
    let mut prompt = String::new();
    push_str(&mut prompt, BASE_SYSTEM_PROMPT);
    if !react_enabled {
        assert(prompt@ =~= BASE_SYSTEM_PROMPT@);
        return prompt;
    }
    push_str(&mut prompt, REACT_PROMPT_HEAD);
    push_decimal_digits(&mut prompt, max_iterations as u64);
    push_str(&mut prompt, REACT_PROMPT_TAIL);
    assert(decimal(max_iterations as int) == crate::text::decimal_digits(max_iterations as nat));
    prompt
}

/// The text of an optional string.
pub open spec fn opt_view(o: Option<String>) -> Option<Seq<char>> {
    match o {
        Some(s) => Some(s@),
        None => None,
    }
}

/// A copy of an optional string.
pub fn clone_opt_string(o: &Option<String>) -> (c: Option<String>)
    ensures
        opt_view(c) == opt_view(*o),
{
    match o {
        Some(s) => Some(s.clone()),
        None => None,
    }
}

/// The function and arguments of a tool call the model asks for.
#[derive(Debug)]
pub struct ToolFunctionCall {
    pub name: String,
    pub arguments: String,
}

/// The text of a tool call.
pub struct ToolCallView {
    pub id: Seq<char>,
    pub kind: Seq<char>,
    pub name: Seq<char>,
    pub arguments: Seq<char>,
}

/// A tool call the model asks for.
#[derive(Debug)]
pub struct ToolCall {
    pub id: String,
    pub kind: String,
    pub function: ToolFunctionCall,
}

impl View for ToolCall {
    type V = ToolCallView;

    open spec fn view(&self) -> ToolCallView {
        ToolCallView {
            id: self.id@,
            kind: self.kind@,
            name: self.function.name@,
            arguments: self.function.arguments@,
        }
    }
}

impl Clone for ToolFunctionCall {
    fn clone(&self) -> (c: Self)
        ensures
            c.name@ == self.name@,
            c.arguments@ == self.arguments@,
    {
        ToolFunctionCall { name: self.name.clone(), arguments: self.arguments.clone() }
    }
}

impl Clone for ToolCall {
    fn clone(&self) -> (c: Self)
        ensures
            c@ == self@,
    {
        ToolCall { id: self.id.clone(), kind: self.kind.clone(), function: self.function.clone() }
    }
}

/// The texts of tool calls.
pub open spec fn call_views(calls: Seq<ToolCall>) -> Seq<ToolCallView> {
    calls.map_values(|c: ToolCall| c@)
}

/// A copy of a list of tool calls.
pub fn clone_calls(calls: &Vec<ToolCall>) -> (c: Vec<ToolCall>)
    ensures
        call_views(c@) == call_views(calls@),
{
    let mut c: Vec<ToolCall> = Vec::new();
    let mut i: usize = 0;
    while i < calls.len()
        invariant
            0 <= i <= calls.len(),
            call_views(c@) == call_views(calls@.take(i as int)),
        decreases calls.len() - i,
    {
        let ghost before = c@;
        c.push(calls[i].clone());
        assert(calls@.take(i + 1) =~= calls@.take(i as int).push(calls@[i as int]));
        assert(call_views(c@) =~= call_views(before).push(calls@[i as int]@));
        assert(call_views(calls@.take(i + 1)) =~= call_views(calls@.take(i as int)).push(calls@[i as int]@));
        i = i + 1;
    }
    assert(calls@.take(calls.len() as int) =~= calls@);
    c
}

/// The text of a chat message.
pub struct MessageView {
    pub role: Seq<char>,
    pub content: Option<Seq<char>>,
    pub tool_call_id: Option<Seq<char>>,
    pub name: Option<Seq<char>>,
    pub tool_calls: Option<Seq<ToolCallView>>,
}

/// A message of the conversation, as the chat-completion API exchanges it.
#[derive(Debug)]
pub struct Message {
    pub role: String,
    pub content: Option<String>,
    pub tool_call_id: Option<String>,
    pub name: Option<String>,
    pub tool_calls: Option<Vec<ToolCall>>,
}

impl View for Message {
    type V = MessageView;

    open spec fn view(&self) -> MessageView {
        MessageView {
            role: self.role@,
            content: opt_view(self.content),
            tool_call_id: opt_view(self.tool_call_id),
            name: opt_view(self.name),
            tool_calls: match self.tool_calls {
                Some(calls) => Some(call_views(calls@)),
                None => None,
            },
        }
    }
}

impl Clone for Message {
    fn clone(&self) -> (c: Self)
        ensures
            c@ == self@,
    {
        Message {
            role: self.role.clone(),
            content: clone_opt_string(&self.content),
            tool_call_id: clone_opt_string(&self.tool_call_id),
            name: clone_opt_string(&self.name),
            tool_calls: match &self.tool_calls {
                Some(calls) => Some(clone_calls(calls)),
                None => None,
            },
        }
    }
}

/// A message with the given role and content and nothing else.
pub open spec fn plain_message(role: Seq<char>, content: Seq<char>) -> MessageView {
    MessageView { role, content: Some(content), tool_call_id: None, name: None, tool_calls: None }
}

impl Message {
    /// A system message with `content`.
    pub fn system(content: String) -> (m: Message)
        ensures
            m@ == plain_message("system"@, content@),
    {
        Message {
            role: "system".to_owned(),
            content: Some(content),
            tool_call_id: None,
            name: None,
            tool_calls: None,
        }
    }

    /// A user message with `content`.
    pub fn user(content: String) -> (m: Message)
        ensures
            m@ == plain_message("user"@, content@),
    {
        Message {
            role: "user".to_owned(),
            content: Some(content),
            tool_call_id: None,
            name: None,
            tool_calls: None,
        }
    }

    /// An assistant message with `content`.
    pub fn assistant(content: String) -> (m: Message)
        ensures
            m@ == plain_message("assistant"@, content@),
    {
        Message {
            role: "assistant".to_owned(),
            content: Some(content),
            tool_call_id: None,
            name: None,
            tool_calls: None,
        }
    }

    /// The message that hands the output of tool call `tool_call_id` of `tool_name` back to
    /// the model.
    pub fn tool(tool_call_id: String, tool_name: String, tool_output: String) -> (m: Message)
        ensures
            m@ == (MessageView {
                role: "tool"@,
                content: Some(tool_output@),
                tool_call_id: Some(tool_call_id@),
                name: Some(tool_name@),
                tool_calls: None,
            }),
    {
        Message {
            role: "tool".to_owned(),
            content: Some(tool_output),
            tool_call_id: Some(tool_call_id),
            name: Some(tool_name),
            tool_calls: None,
        }
    }
}

/// The texts of messages.
pub open spec fn message_views(ms: Seq<Message>) -> Seq<MessageView> {
    ms.map_values(|m: Message| m@)
}

/// A copy of a list of messages.
pub fn clone_messages(ms: &Vec<Message>) -> (c: Vec<Message>)
    ensures
        message_views(c@) == message_views(ms@),
{
    let mut c: Vec<Message> = Vec::new();
    let mut i: usize = 0;
    while i < ms.len()
        invariant
            0 <= i <= ms.len(),
            message_views(c@) == message_views(ms@.take(i as int)),
        decreases ms.len() - i,
    {
        let ghost before = c@;
        c.push(ms[i].clone());
        assert(ms@.take(i + 1) =~= ms@.take(i as int).push(ms@[i as int]));
        assert(message_views(c@) =~= message_views(before).push(ms@[i as int]@));
        assert(message_views(ms@.take(i + 1)) =~= message_views(ms@.take(i as int)).push(ms@[i as int]@));
        i = i + 1;
    }
    assert(ms@.take(ms.len() as int) =~= ms@);
    c
}

/// One argument of a tool: its JSON type and what it means.
#[derive(Debug, Clone, Copy)]
pub struct ToolProperty {
    pub kind: &'static str,
    pub description: &'static str,
}

/// A reply of the chat-completion API.
#[derive(Debug)]
pub struct ChatCompletionResponse {
    pub choices: Vec<ChatCompletionResponseChoice>,
}

/// One choice of a chat-completion reply.
#[derive(Debug)]
pub struct ChatCompletionResponseChoice {
    pub message: Message,
}

/// One event of a streamed chat completion.
#[derive(Debug)]
pub struct ChatCompletionChunk {
    pub choices: Vec<ChatCompletionChoice>,
}

/// One choice of a streamed event.
#[derive(Debug)]
pub struct ChatCompletionChoice {
    pub delta: Delta,
    pub finish_reason: Option<String>,
}

/// The text a streamed event adds.
#[derive(Debug)]
pub struct Delta {
    pub role: Option<String>,
    pub content: Option<String>,
}

/// The arguments of the `run_bash_command` tool.
#[derive(Debug)]
pub struct BashCommandArgs {
    pub command: String,
}

/// The arguments of the `get_weather` tool.
#[derive(Debug)]
pub struct WeatherArgs {
    pub city: Option<String>,
}

/// The text a streamed event adds: the content of its first choice, if any.
pub fn chunk_text(chunk: &ChatCompletionChunk) -> (text: Option<String>)
    ensures
        chunk.choices@.len() == 0 ==> text is None,
        chunk.choices@.len() > 0 ==> opt_view(text) == opt_view(chunk.choices@[0].delta.content),
{
    if chunk.choices.len() == 0 {
        return None;
    }
    clone_opt_string(&chunk.choices[0].delta.content)
}

} // verus!
