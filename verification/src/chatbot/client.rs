use vstd::prelude::*;
use crate::text::{
    chars_contain, chars_eq_ignore_ascii_case, chars_of, contains_seq, decimal, eq_ignore_ascii_case,
    join_with, join_with_spaces, push_decimal_digits, push_str, push_string, string_of, trim_chars,
    trimmed, words, words_of, is_whitespace,
};
use crate::chatbot::models::{clone_messages, message_views, plain_message, ChatCompletionResponse, Message, MessageView};

verus! {

/// How the controller must answer in ReAct mode.
pub const CONTROL_OUTPUT_INSTRUCTIONS: &'static str = "Return exactly one JSON object with this schema:\n{\"status\":\"continue|final\",\"assistant_message\":\"string\",\"reflection\":\"string\"}\n\nRules:\n- Do not wrap the JSON in markdown.\n- \"assistant_message\" must contain the best current user-facing answer draft.\n- \"reflection\" must be a short internal sufficiency judgment.\n- Use \"continue\" only if the current answer is still insufficient and another iteration would materially improve it.\n- Use \"final\" when the answer is sufficient or no more useful progress is likely.\n- Never reveal chain-of-thought.\n";

/// How many characters of an error body an error message shows.
pub const ERROR_BODY_SNIPPET_LEN: usize = 300;

/// How many times a tool-enabled request is tried before giving up on a rejection.
pub const TOOL_RETRY_ATTEMPTS: usize = 3;

/// The HTTP status of a malformed request.
pub const BAD_REQUEST: u16 = 400;

/// What the controller decided after an iteration.
#[derive(Debug)]
pub struct ReactControlDecision {
    pub status: String,
    pub assistant_message: String,
    pub reflection: String,
}

/// A failed chat-completion request: the HTTP status when one came back, the reply body
/// or a description of the failure, and whether tools were offered.
#[derive(Debug)]
pub struct ApiRequestError {
    pub status: Option<u16>,
    pub body: String,
    pub allow_tools: bool,
}

/// The error body with its white space collapsed to single spaces, cut to
/// [`ERROR_BODY_SNIPPET_LEN`] characters followed by `...` when longer.
pub open spec fn sanitized(body: Seq<char>) -> Seq<char> {
    let normalized = join_with(words(body), seq![' ']);
    if normalized.len() <= ERROR_BODY_SNIPPET_LEN {
        normalized
    } else {
        normalized.take(ERROR_BODY_SNIPPET_LEN as int) + "..."@
    }
}

/// What goes into an error message from a reply body is one short line: at most
/// [`ERROR_BODY_SNIPPET_LEN`] characters and an ellipsis, with every run of white space
/// (line breaks included) turned into a single space.
pub proof fn law_sanitized_body_is_one_short_line(body: Seq<char>)
    ensures
        sanitized(body).len() <= ERROR_BODY_SNIPPET_LEN + 3,
        forall|i: int| 0 <= i < sanitized(body).len() ==> #[trigger] sanitized(body)[i] == ' ' || !is_whitespace(sanitized(body)[i]),
{
    reveal_strlit("...");
    let ok = |c: char| c == ' ' || !is_whitespace(c);
    let ws = words(body);
    crate::text::law_words_hold_no_white_space(body);
    assert forall|i: int, j: int| 0 <= i < ws.len() && 0 <= j < ws[i].len() implies ok(#[trigger] ws[i][j]) by {}
    assert forall|j: int| 0 <= j < seq![' '].len() implies ok(#[trigger] seq![' '][j]) by {}
    crate::text::lemma_join_with_chars(ws, seq![' '], ok);
    let n = join_with(ws, seq![' ']);
    let out = sanitized(body);
    assert forall|i: int| 0 <= i < out.len() implies #[trigger] out[i] == ' ' || !is_whitespace(out[i]) by {
        if n.len() <= ERROR_BODY_SNIPPET_LEN {
            assert(ok(n[i]));
        } else if i < ERROR_BODY_SNIPPET_LEN {
            assert(out[i] == n[i]);
            assert(ok(n[i]));
        } else {
            assert(out[i] == "..."@[i - ERROR_BODY_SNIPPET_LEN]);
        }
    }
}

/// The error body made fit for one line of an error message (see [`sanitized`]).
pub fn sanitize_error_body(body: &str) -> (r: String)
    ensures
        r@ == sanitized(body@),
{
    let chars = chars_of(body);
    let ws = words_of(&chars);
    let normalized = join_with_spaces(&ws);
    if normalized.len() <= ERROR_BODY_SNIPPET_LEN {
        string_of(&normalized)
    } else {
        let head = crate::text::slice_chars(&normalized, 0, ERROR_BODY_SNIPPET_LEN);
        let mut r = string_of(&head);
        push_str(&mut r, "...");
        assert(head@ =~= normalized@.take(ERROR_BODY_SNIPPET_LEN as int));
        r
    }
}

/// The one-line description of a failed request.
pub open spec fn error_message(status: Option<u16>, body: Seq<char>) -> Seq<char> {
    match status {
        Some(code) => "HTTP "@ + decimal(code as int) + " from API"@ + if trimmed(body).len() == 0 {
            Seq::empty()
        } else {
            ": "@ + sanitized(body)
        },
        None => "Request failed before receiving an HTTP response."@,
    }
}

impl ApiRequestError {
    /// A tool-enabled request the provider rejected as malformed, which may succeed when
    /// tried again.
    pub fn is_retryable_tool_400(&self) -> (r: bool)
        ensures
            r == (self.allow_tools && self.status == Some(BAD_REQUEST)),
    {
        self.allow_tools && self.status == Some(BAD_REQUEST)
    }

    /// A request without tools that the provider rejected because the model called a tool
    /// anyway.
    pub fn is_disallowed_tool_call_without_tools(&self) -> (r: bool)
        ensures
            r == (!self.allow_tools && self.status == Some(BAD_REQUEST) && (contains_seq(
                self.body@,
                "Tool choice is none, but model called a tool"@,
            ) || contains_seq(self.body@, "tool_use_failed"@))),
    {
        if self.allow_tools || self.status != Some(BAD_REQUEST) {
            return false;
        }
        let body = chars_of(self.body.as_str());
        let called = chars_of("Tool choice is none, but model called a tool");
        let failed = chars_of("tool_use_failed");
        chars_contain(&body, &called) || chars_contain(&body, &failed)
    }

    /// The description of the failure shown to the user (see [`error_message`]).
    pub fn display_message(&self) -> (r: String)
        ensures
            r@ == error_message(self.status, self.body@),
    {
        match self.status {
            Some(code) => {
                let mut r = String::new();
                push_str(&mut r, "HTTP ");
                push_decimal_digits(&mut r, code as u64);
                push_str(&mut r, " from API");
                let body = chars_of(self.body.as_str());
                let t = trim_chars(&body);
                if t.len() > 0 {
                    push_str(&mut r, ": ");
                    let s = sanitize_error_body(self.body.as_str());
                    push_string(&mut r, &s);
                    assert(r@ =~= "HTTP "@ + decimal(code as int) + " from API"@ + (": "@ + sanitized(self.body@)));
                } else {
                    assert(r@ =~= "HTTP "@ + decimal(code as int) + " from API"@ + Seq::<char>::empty());
                }
                r
            },
            None => "Request failed before receiving an HTTP response.".to_owned(),
        }
    }
}

/// The first choice of a chat-completion reply, or the error for a reply without any.
pub fn first_choice_message(completion: ChatCompletionResponse, allow_tools: bool) -> (r: Result<
    Message,
    ApiRequestError,
>)
    ensures
        completion.choices@.len() > 0 ==> r == Ok::<Message, ApiRequestError>(completion.choices@[0].message),
        completion.choices@.len() == 0 ==> r is Err && r->Err_0.status is None && r->Err_0.body@
            == "API returned no choices"@ && r->Err_0.allow_tools == allow_tools,
{
    let mut choices = completion.choices;
    if choices.len() == 0 {
        return Err(
            ApiRequestError {
                status: None,
                body: "API returned no choices".to_owned(),
                allow_tools,
            },
        );
    }
    let first = choices.swap_remove(0);
    Ok(first.message)
}

/// The reply body when the HTTP status reports success (`200` to `299`), otherwise the
/// error that carries the status and body.
pub fn check_status(status: u16, body: String, allow_tools: bool) -> (r: Result<String, ApiRequestError>)
    ensures
        200 <= status <= 299 ==> r == Ok::<String, ApiRequestError>(body),
        !(200 <= status <= 299) ==> r == Err::<String, ApiRequestError>(
            ApiRequestError { status: Some(status), body, allow_tools },
        ),
{
    if 200 <= status && status <= 299 {
        Ok(body)
    } else {
        Err(ApiRequestError { status: Some(status), body, allow_tools })
    }
}

/// What to do after one attempt of a request that may be retried.
pub enum RetryStep {
    /// The request is over, with this outcome.
    Finished(Result<Message, ApiRequestError>),
    /// Try again, as the attempt with this index.
    Retry(usize),
}

/// The retry policy: a tool-enabled request the provider rejected as malformed is tried
/// again, up to [`TOOL_RETRY_ATTEMPTS`] attempts in all, and the last rejection is reported
/// when all fail; any other outcome, and any outcome of a request without tools, ends it.
pub fn next_retry_step(allow_tools: bool, attempt: usize, outcome: Result<Message, ApiRequestError>) -> (step: RetryStep)
    requires
        attempt < TOOL_RETRY_ATTEMPTS,
    ensures
        match step {
            RetryStep::Retry(next) => allow_tools && outcome is Err && outcome->Err_0.allow_tools
                && outcome->Err_0.status == Some(BAD_REQUEST) && next == attempt + 1 && next
                < TOOL_RETRY_ATTEMPTS,
            RetryStep::Finished(r) => r == outcome && !(allow_tools && outcome is Err
                && outcome->Err_0.allow_tools && outcome->Err_0.status == Some(BAD_REQUEST)
                && attempt + 1 < TOOL_RETRY_ATTEMPTS),
        },
{
    if !allow_tools {
        return RetryStep::Finished(outcome);
    }
    match outcome {
        Ok(m) => RetryStep::Finished(Ok(m)),
        Err(e) => {
            if e.is_retryable_tool_400() && attempt + 1 < TOOL_RETRY_ATTEMPTS {
                RetryStep::Retry(attempt + 1)
            } else {
                RetryStep::Finished(Err(e))
            }
        },
    }
}

/// The phase note of a control request.
pub open spec fn phase_note(post_tool_reflection: bool) -> Seq<char> {
    if post_tool_reflection {
        "Reflect on the tool results and decide whether another iteration is needed."@
    } else {
        "Reason about the request, call tools if needed, otherwise decide whether the answer is sufficient."@
    }
}

/// The system note that asks the controller for its decision in an iteration.
pub open spec fn control_note(iteration: nat, max_iterations: nat, post_tool_reflection: bool) -> Seq<char> {
    "ReAct controller.\nIteration: "@ + decimal(iteration as int) + "/"@ + decimal(max_iterations as int)
        + ".\n"@ + phase_note(post_tool_reflection) + "\n"@ + CONTROL_OUTPUT_INSTRUCTIONS@
}

/// The messages of a control request: the conversation so far and the control note.
pub fn build_control_messages(
    base_messages: &Vec<Message>,
    iteration: usize,
    max_iterations: usize,
    post_tool_reflection: bool,
) -> (messages: Vec<Message>)
    ensures
        message_views(messages@) == message_views(base_messages@).push(
            plain_message("system"@, control_note(iteration as nat, max_iterations as nat, post_tool_reflection)),
        ),
{
    let mut messages = clone_messages(base_messages);
    let mut note = String::new();
    push_str(&mut note, "ReAct controller.\nIteration: ");
    push_decimal_digits(&mut note, iteration as u64);
    push_str(&mut note, "/");
    push_decimal_digits(&mut note, max_iterations as u64);
    push_str(&mut note, ".\n");
    if post_tool_reflection {
        push_str(&mut note, "Reflect on the tool results and decide whether another iteration is needed.");
    } else {
        push_str(&mut note, "Reason about the request, call tools if needed, otherwise decide whether the answer is sufficient.");
    }
    push_str(&mut note, "\n");
    push_str(&mut note, CONTROL_OUTPUT_INSTRUCTIONS);
    let ghost before = messages@;
    messages.push(Message::system(note));
    assert(message_views(messages@) =~= message_views(before).push(messages@.last()@));
    messages
}

/// The note that carries a decision to continue into the next iteration.
pub open spec fn continue_note(assistant_message: Seq<char>, reflection: Seq<char>, iteration: int, max_iterations: int) -> Seq<char> {
    "Continue ReAct refinement. Previous draft answer: "@ + assistant_message + ". Previous reflection: "@
        + reflection + ". Remaining iterations: "@ + decimal(if max_iterations > iteration { max_iterations - iteration } else { 0 })
        + ". Improve the answer materially or finalize if no further progress is likely. Return JSON only."@
}

/// The note for the next iteration (see [`continue_note`]); the remaining count saturates at
/// zero.
pub fn build_continue_note(assistant_message: &str, reflection: &str, iteration: usize, max_iterations: usize) -> (note: String)
    ensures
        note@ == continue_note(assistant_message@, reflection@, iteration as int, max_iterations as int),
{
    let mut note = String::new();
    push_str(&mut note, "Continue ReAct refinement. Previous draft answer: ");
    push_str(&mut note, assistant_message);
    push_str(&mut note, ". Previous reflection: ");
    push_str(&mut note, reflection);
    push_str(&mut note, ". Remaining iterations: ");
    push_decimal_digits(&mut note, max_iterations.saturating_sub(iteration) as u64);
    push_str(&mut note, ". Improve the answer materially or finalize if no further progress is likely. Return JSON only.");
    note
}

/// The note recorded when the provider rejects every tool-enabled request of a turn.
pub open spec fn fallback_note_text() -> Seq<char> {
    "Local tools are unavailable for this turn because the provider rejected the tool-enabled request. Continue without tools and clearly state any limitations in the answer."@
}

/// The note recorded when the provider rejects every tool-enabled request of a turn.
pub fn tool_fallback_note() -> (note: String)
    ensures
        note@ == fallback_note_text(),
{
    "Local tools are unavailable for this turn because the provider rejected the tool-enabled request. Continue without tools and clearly state any limitations in the answer.".to_owned()
}

/// The loop ends at the last iteration, or when the controller says `final` in any case.
pub fn should_finalize(decision: &ReactControlDecision, iteration: usize, max_iterations: usize) -> (r: bool)
    ensures
        r == (iteration >= max_iterations || eq_ignore_ascii_case(decision.status@, "final"@)),
{
    if iteration >= max_iterations {
        return true;
    }
    let status = chars_of(decision.status.as_str());
    let fin = chars_of("final");
    chars_eq_ignore_ascii_case(&status, &fin)
}

/// The controller's decision: what its reply parses to, or, for a reply that is not such a
/// JSON object, a final decision whose draft is the trimmed reply.
pub fn parse_control_decision(raw_content: &str, parsed: Option<ReactControlDecision>) -> (d: ReactControlDecision)
    ensures
        parsed is Some ==> d == parsed->0,
        parsed is None ==> d.status@ == "final"@ && d.assistant_message@ == trimmed(raw_content@)
            && d.reflection@ == "Malformed controller output; using final-answer fallback."@,
{
    match parsed {
        Some(d) => d,
        None => {
            let raw = chars_of(raw_content);
            let t = trim_chars(&raw);
            ReactControlDecision {
                status: "final".to_owned(),
                assistant_message: string_of(&t),
                reflection: "Malformed controller output; using final-answer fallback.".to_owned(),
            }
        },
    }
}

/// The decision that stands in for the reflection of a model that asked for another tool
/// where none was offered: continue with another iteration.
pub open spec fn is_tool_request_decision(d: ReactControlDecision) -> bool {
    &&& d.status@ == "continue"@
    &&& d.assistant_message@ == "Additional tool work is needed before finalizing the answer."@
    &&& d.reflection@ == "The model attempted another tool call during reflection, so the controller will continue with another tool-enabled iteration."@
}

/// The decision that stands in for a reflection in which the model called a tool.
pub fn tool_request_decision() -> (d: ReactControlDecision)
    ensures
        is_tool_request_decision(d),
{
    ReactControlDecision {
        status: "continue".to_owned(),
        assistant_message: "Additional tool work is needed before finalizing the answer.".to_owned(),
        reflection: "The model attempted another tool call during reflection, so the controller will continue with another tool-enabled iteration.".to_owned(),
    }
}

/// The last note of a turn, which asks for the final answer and carries the draft.
pub open spec fn final_answer_note(final_draft: Seq<char>) -> Seq<char> {
    "Produce the final user-facing answer now. Do not reveal internal reasoning. Use the completed work above. Draft answer to refine:\n"@ + final_draft
}

/// The messages of the final streamed answer: the conversation and the final note.
pub fn final_answer_messages(messages: &Vec<Message>, final_draft: &str) -> (r: Vec<Message>)
    ensures
        message_views(r@) == message_views(messages@).push(plain_message("system"@, final_answer_note(final_draft@))),
{
    let mut r = clone_messages(messages);
    let mut note = String::new();
    push_str(&mut note, "Produce the final user-facing answer now. Do not reveal internal reasoning. Use the completed work above. Draft answer to refine:\n");
    push_str(&mut note, final_draft);
    let ghost before = r@;
    r.push(Message::system(note));
    assert(message_views(r@) =~= message_views(before).push(r@.last()@));
    r
}

} // verus!
