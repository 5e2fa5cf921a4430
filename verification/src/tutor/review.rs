use vstd::prelude::*;
use crate::text::{chars_occur_at, chars_of, push_str, string_of, trim_chars, trimmed};
use crate::chatbot::sse::starts_with;
use crate::chatbot::tools::same;

verus! {

/// How many times the proofreader looks at a reply before it stands as it is.
pub const MAX_RETRIES: usize = 2;

/// Dims text that follows, for the teacher's reasoning.
pub const GRAY: &'static str = "\x1b[90m";

/// Ends a dimmed stretch of text.
pub const RESET: &'static str = "\x1b[0m";

/// What the user's line asks for.
#[derive(Debug)]
pub enum InputAction {
    /// Nothing was typed.
    Skip,
    /// `/quit`.
    Quit,
    /// Send the trimmed line to the teacher.
    Send(String),
}

/// Reads the user's line: trimmed, empty is skipped and `/quit` quits.
pub fn classify_input(line: &str) -> (r: InputAction)
    ensures
        trimmed(line@).len() == 0 ==> r is Skip,
        trimmed(line@) == "/quit"@ ==> r is Quit,
        trimmed(line@).len() > 0 && trimmed(line@) != "/quit"@ ==> (r matches InputAction::Send(s) && s@ == trimmed(line@)),
{
    let t = trim_chars(&chars_of(line));
    proof {
        reveal_strlit("/quit");
    }
    if t.len() == 0 {
        InputAction::Skip
    } else if same(&t, &chars_of("/quit")) {
        InputAction::Quit
    } else {
        InputAction::Send(string_of(&t))
    }
}

/// The question put to the proofreader about the teacher's reply.
pub open spec fn review_prompt_text(input: Seq<char>, reply: Seq<char>) -> Seq<char> {
    "Student said: \""@ + input + "\"\n\nTeacher replied: \""@ + reply + "\"\n\nIs this response OK?"@
}

/// The question put to the proofreader (see [`review_prompt_text`]).
pub fn review_prompt(input: &str, reply: &str) -> (r: String)
    ensures
        r@ == review_prompt_text(input@, reply@),
{
    let mut r = String::new();
    push_str(&mut r, "Student said: \"");
    push_str(&mut r, input);
    push_str(&mut r, "\"\n\nTeacher replied: \"");
    push_str(&mut r, reply);
    push_str(&mut r, "\"\n\nIs this response OK?");
    r
}

/// The request to the teacher to correct a reply the proofreader faulted.
pub open spec fn correction_prompt_text(feedback: Seq<char>, input: Seq<char>) -> Seq<char> {
    "A proofreader found a problem with your previous response. Feedback: "@ + feedback
        + "\n\nPlease correct your response to the student who said: \""@ + input + "\""@
}

/// The request to the teacher to correct its reply (see [`correction_prompt_text`]).
pub fn correction_prompt(feedback: &str, input: &str) -> (r: String)
    ensures
        r@ == correction_prompt_text(feedback@, input@),
{
    let mut r = String::new();
    push_str(&mut r, "A proofreader found a problem with your previous response. Feedback: ");
    push_str(&mut r, feedback);
    push_str(&mut r, "\n\nPlease correct your response to the student who said: \"");
    push_str(&mut r, input);
    push_str(&mut r, "\"");
    r
}

/// What to do after the proofreader's verdict in round `retry`.
#[derive(Debug)]
pub enum ReviewDecision {
    /// The proofreader approves the reply.
    Approved,
    /// Ask the teacher again with this correction request.
    Retry(String),
    /// The reply stands as it is.
    Keep,
}

/// The proofreader approves when its verdict, trimmed, starts with `OK`. Otherwise the
/// teacher corrects the reply, except in the last round.
pub fn review_decision(retry: usize, verdict: &str, input: &str) -> (d: ReviewDecision)
    requires
        retry < MAX_RETRIES,
    ensures
        starts_with(trimmed(verdict@), "OK"@) ==> d is Approved,
        !starts_with(trimmed(verdict@), "OK"@) && retry + 1 < MAX_RETRIES ==> (d matches ReviewDecision::Retry(p) && p@ == correction_prompt_text(verdict@, input@)),
        !starts_with(trimmed(verdict@), "OK"@) && retry + 1 >= MAX_RETRIES ==> d is Keep,
{
    let t = trim_chars(&chars_of(verdict));
    if chars_occur_at(&t, &chars_of("OK"), 0) {
        ReviewDecision::Approved
    } else if retry + 1 < MAX_RETRIES {
        ReviewDecision::Retry(correction_prompt(verdict, input))
    } else {
        ReviewDecision::Keep
    }
}

/// A piece of the teacher's streamed reply.
#[derive(Debug)]
pub enum StreamItem {
    /// Answer text.
    Text(String),
    /// Reasoning text, whole or in part.
    Reasoning(String),
    /// The end of the reply.
    Final,
    /// Anything else.
    Other,
}

/// The printing of a streamed reply: whether a dimmed reasoning section is open, and the
/// answer text so far.
pub struct ReplyPrinter {
    pub is_thinking: bool,
    pub full_reply: String,
}

impl ReplyPrinter {
    /// A printer before the first piece.
    pub fn new() -> (p: ReplyPrinter)
        ensures
            !p.is_thinking,
            p.full_reply@ == Seq::<char>::empty(),
    {
        ReplyPrinter { is_thinking: false, full_reply: String::new() }
    }

    /// Takes the next piece and gives the text to print: answer text after closing an open
    /// reasoning section, reasoning text after opening one, and a line end at the end.
    /// Only answer text joins the reply.
    pub fn step(&mut self, item: StreamItem) -> (out: String)
        ensures
            match item {
                StreamItem::Text(t) => {
                    &&& out@ == (if old(self).is_thinking { RESET@ + "\n"@ } else { Seq::empty() }) + t@
                    &&& final(self).full_reply@ == old(self).full_reply@ + t@
                    &&& !final(self).is_thinking
                },
                StreamItem::Reasoning(t) => {
                    &&& out@ == (if !old(self).is_thinking { GRAY@ + "[thinking] "@ } else { Seq::empty() }) + t@
                    &&& final(self).full_reply@ == old(self).full_reply@
                    &&& final(self).is_thinking
                },
                StreamItem::Final => {
                    &&& out@ == (if old(self).is_thinking { RESET@ } else { Seq::empty() }) + "\n"@
                    &&& final(self).full_reply@ == old(self).full_reply@
                    &&& !final(self).is_thinking
                },
                StreamItem::Other => {
                    &&& out@ == Seq::<char>::empty()
                    &&& final(self).full_reply@ == old(self).full_reply@
                    &&& final(self).is_thinking == old(self).is_thinking
                },
            },
    {
        let mut out = String::new();
        match item {
            StreamItem::Text(t) => {
                if self.is_thinking {
                    self.is_thinking = false;
                    push_str(&mut out, RESET);
                    push_str(&mut out, "\n");
                }
                push_str(&mut out, t.as_str());
                push_str(&mut self.full_reply, t.as_str());
                assert(out@ =~= (if old(self).is_thinking { RESET@ + "\n"@ } else { Seq::<char>::empty() }) + t@);
            },
            StreamItem::Reasoning(t) => {
                if !self.is_thinking {
                    self.is_thinking = true;
                    push_str(&mut out, GRAY);
                    push_str(&mut out, "[thinking] ");
                }
                push_str(&mut out, t.as_str());
                assert(out@ =~= (if !old(self).is_thinking { GRAY@ + "[thinking] "@ } else { Seq::<char>::empty() }) + t@);
            },
            StreamItem::Final => {
                if self.is_thinking {
                    self.is_thinking = false;
                    push_str(&mut out, RESET);
                }
                push_str(&mut out, "\n");
                assert(out@ =~= (if old(self).is_thinking { RESET@ } else { Seq::<char>::empty() }) + "\n"@);
            },
            StreamItem::Other => {},
        }
        out
    }
}

} // verus!
