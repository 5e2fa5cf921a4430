use vstd::prelude::*;
use crate::text::{eq_ignore_ascii_case, trimmed};
use crate::chatbot::client::{
    build_continue_note, build_control_messages, continue_note, control_note, error_message,
    fallback_note_text, final_answer_messages, final_answer_note, parse_control_decision,
    should_finalize, tool_fallback_note, tool_request_decision, ApiRequestError,
    ReactControlDecision, BAD_REQUEST,
};
use crate::chatbot::config::{AppState, ReactTraceMode};
use crate::chatbot::models::{
    call_views, clone_calls, clone_messages, message_views, plain_message, Message, MessageView,
    ToolCall, ToolCallView,
};
use crate::text::contains_seq;

verus! {

/// Where a ReAct turn stands.
#[derive(Debug, Clone, Copy, PartialEq, Eq, Structural)]
pub enum ReactStage {
    /// Before the first request.
    Start,
    /// Waiting for the reply to the control request of the current iteration.
    AwaitControl,
    /// Waiting for the reply to the request made without tools after the provider rejected
    /// the tool-enabled ones.
    AwaitFallbackControl,
    /// Waiting for the parse of a reply that called no tool.
    AwaitParsedReply,
    /// Waiting for the output of the pending tool call `next_call`.
    AwaitTool,
    /// Waiting for the reply to the reflection request that follows the tool calls.
    AwaitReflection,
    /// Waiting for the parse of the reflection reply.
    AwaitParsedReflection,
    /// The turn is over.
    Done,
}

/// The state of one ReAct turn: the conversation as the controller sees it, the iteration
/// under way and its bound, the latest draft answer, whether tools may still be offered,
/// whether phases are shown, and what the turn waits for.
pub struct ReactTurn {
    pub working_messages: Vec<Message>,
    pub max_iterations: usize,
    pub iteration: usize,
    pub final_draft: String,
    pub tools_available: bool,
    pub show_phases: bool,
    pub stage: ReactStage,
    pub pending_calls: Vec<ToolCall>,
    pub next_call: usize,
    pub pending_raw: String,
}

/// The text of a failed request.
pub struct ErrorView {
    pub status: Option<u16>,
    pub body: Seq<char>,
    pub allow_tools: bool,
}

/// The text of a controller decision.
pub struct DecisionView {
    pub status: Seq<char>,
    pub assistant_message: Seq<char>,
    pub reflection: Seq<char>,
}

/// The text of a turn's state.
#[verifier::ext_equal]
pub struct TurnView {
    pub working: Seq<MessageView>,
    pub max_iterations: nat,
    pub iteration: nat,
    pub final_draft: Seq<char>,
    pub tools_available: bool,
    pub show_phases: bool,
    pub stage: ReactStage,
    pub pending_calls: Seq<ToolCallView>,
    pub next_call: nat,
    pub pending_raw: Seq<char>,
}

/// What happened outside since the last step.
pub enum ReactEvent {
    /// The turn starts.
    Begin,
    /// The reply to a control request.
    ControlReply(Result<Message, ApiRequestError>),
    /// The output of the pending tool call.
    ToolOutput(String),
    /// The reply to a reflection request.
    ReflectionReply(Result<Message, ApiRequestError>),
    /// What the requested reply parses to as a controller decision.
    Parsed(Option<ReactControlDecision>),
}

/// The text of an event.
pub enum EventView {
    Begin,
    ControlReply(Result<MessageView, ErrorView>),
    ToolOutput(Seq<char>),
    ReflectionReply(Result<MessageView, ErrorView>),
    Parsed(Option<DecisionView>),
}

/// What the caller must do next.
pub enum ReactAction {
    /// Show that iteration `iteration` of `max_iterations` enters `phase`.
    ShowPhase { iteration: usize, max_iterations: usize, phase: String },
    /// Warn the user about a failed request that the turn recovers from.
    Warn(String),
    /// Append the message to the conversation history.
    Record(Message),
    /// Ask the model for the controller's reply to `messages`, offering tools when
    /// `allow_tools` holds, and retrying rejections as `next_retry_step` says when `retry`
    /// holds; answer with [`ReactEvent::ControlReply`].
    RequestControl { messages: Vec<Message>, allow_tools: bool, retry: bool },
    /// Run the tool call; answer with [`ReactEvent::ToolOutput`].
    RunTool(ToolCall),
    /// Ask the model, without tools, for its reflection on `messages`; answer with
    /// [`ReactEvent::ReflectionReply`].
    RequestReflection { messages: Vec<Message> },
    /// Parse the text as a controller decision; answer with [`ReactEvent::Parsed`].
    ParseDecision(String),
    /// Stream the final answer to `messages`; the turn is over.
    StreamFinal { messages: Vec<Message> },
    /// The turn fails with this message.
    Fail(String),
    /// Show this reply of the model; it is the turn's answer.
    Answer(String),
}

/// The text of an action.
#[verifier::ext_equal]
pub enum ActionView {
    ShowPhase(nat, nat, Seq<char>),
    Warn(Seq<char>),
    Record(MessageView),
    RequestControl(Seq<MessageView>, bool, bool),
    RunTool(ToolCallView),
    RequestReflection(Seq<MessageView>),
    ParseDecision(Seq<char>),
    StreamFinal(Seq<MessageView>),
    Fail(Seq<char>),
    Answer(Seq<char>),
}

impl View for ApiRequestError {
    type V = ErrorView;

    open spec fn view(&self) -> ErrorView {
        ErrorView { status: self.status, body: self.body@, allow_tools: self.allow_tools }
    }
}

impl View for ReactControlDecision {
    type V = DecisionView;

    open spec fn view(&self) -> DecisionView {
        DecisionView {
            status: self.status@,
            assistant_message: self.assistant_message@,
            reflection: self.reflection@,
        }
    }
}

impl View for ReactTurn {
    type V = TurnView;

    open spec fn view(&self) -> TurnView {
        TurnView {
            working: message_views(self.working_messages@),
            max_iterations: self.max_iterations as nat,
            iteration: self.iteration as nat,
            final_draft: self.final_draft@,
            tools_available: self.tools_available,
            show_phases: self.show_phases,
            stage: self.stage,
            pending_calls: call_views(self.pending_calls@),
            next_call: self.next_call as nat,
            pending_raw: self.pending_raw@,
        }
    }
}

/// The text of a reply or of its failure.
pub open spec fn reply_view(r: Result<Message, ApiRequestError>) -> Result<MessageView, ErrorView> {
    match r {
        Ok(m) => Ok(m@),
        Err(e) => Err(e@),
    }
}

impl View for ReactEvent {
    type V = EventView;

    open spec fn view(&self) -> EventView {
        match self {
            ReactEvent::Begin => EventView::Begin,
            ReactEvent::ControlReply(r) => EventView::ControlReply(reply_view(*r)),
            ReactEvent::ToolOutput(s) => EventView::ToolOutput(s@),
            ReactEvent::ReflectionReply(r) => EventView::ReflectionReply(reply_view(*r)),
            ReactEvent::Parsed(p) => EventView::Parsed(
                match p {
                    Some(d) => Some(d@),
                    None => None,
                },
            ),
        }
    }
}

impl View for ReactAction {
    type V = ActionView;

    open spec fn view(&self) -> ActionView {
        match self {
            ReactAction::ShowPhase { iteration, max_iterations, phase } => ActionView::ShowPhase(
                *iteration as nat,
                *max_iterations as nat,
                phase@,
            ),
            ReactAction::Warn(s) => ActionView::Warn(s@),
            ReactAction::Record(m) => ActionView::Record(m@),
            ReactAction::RequestControl { messages, allow_tools, retry } => ActionView::RequestControl(
                message_views(messages@),
                *allow_tools,
                *retry,
            ),
            ReactAction::RunTool(c) => ActionView::RunTool(c@),
            ReactAction::RequestReflection { messages } => ActionView::RequestReflection(
                message_views(messages@),
            ),
            ReactAction::ParseDecision(s) => ActionView::ParseDecision(s@),
            ReactAction::StreamFinal { messages } => ActionView::StreamFinal(message_views(messages@)),
            ReactAction::Fail(s) => ActionView::Fail(s@),
            ReactAction::Answer(s) => ActionView::Answer(s@),
        }
    }
}

/// The texts of actions.
pub open spec fn action_views(actions: Seq<ReactAction>) -> Seq<ActionView> {
    actions.map_values(|a: ReactAction| a@)
}

/// The description of a failed request, on its text.
pub open spec fn error_text(e: ErrorView) -> Seq<char> {
    error_message(e.status, e.body)
}

/// A tool-enabled request rejected as malformed.
pub open spec fn is_retryable(e: ErrorView) -> bool {
    e.allow_tools && e.status == Some(BAD_REQUEST)
}

/// A request without tools rejected because the model called one.
pub open spec fn is_disallowed_tool_call(e: ErrorView) -> bool {
    &&& !e.allow_tools
    &&& e.status == Some(BAD_REQUEST)
    &&& (contains_seq(e.body, "Tool choice is none, but model called a tool"@) || contains_seq(
        e.body,
        "tool_use_failed"@,
    ))
}

/// The decision a reply stands for: its parse, or the final decision on its trimmed text.
pub open spec fn decision_of(raw: Seq<char>, parsed: Option<DecisionView>) -> DecisionView {
    match parsed {
        Some(d) => d,
        None => DecisionView {
            status: "final"@,
            assistant_message: trimmed(raw),
            reflection: "Malformed controller output; using final-answer fallback."@,
        },
    }
}

/// The decision that stands for a reflection in which the model called a tool.
pub open spec fn tool_request_view() -> DecisionView {
    DecisionView {
        status: "continue"@,
        assistant_message: "Additional tool work is needed before finalizing the answer."@,
        reflection: "The model attempted another tool call during reflection, so the controller will continue with another tool-enabled iteration."@,
    }
}

/// The loop ends at the last iteration or on a `final` decision.
pub open spec fn finalizes(d: DecisionView, iteration: nat, max_iterations: nat) -> bool {
    iteration >= max_iterations || eq_ignore_ascii_case(d.status, "final"@)
}

/// The content of a message, empty when it has none.
pub open spec fn content_or_empty(m: MessageView) -> Seq<char> {
    match m.content {
        Some(c) => c,
        None => Seq::empty(),
    }
}

/// The message that hands a tool's output back to the model.
pub open spec fn tool_message_view(c: ToolCallView, output: Seq<char>) -> MessageView {
    MessageView {
        role: "tool"@,
        content: Some(output),
        tool_call_id: Some(c.id),
        name: Some(c.name),
        tool_calls: None,
    }
}

/// The messages of a control request in the current iteration.
pub open spec fn control_request(t: TurnView, post_tool_reflection: bool) -> Seq<MessageView> {
    t.working.push(plain_message("system"@, control_note(t.iteration, t.max_iterations, post_tool_reflection)))
}

/// The phase line, when phases are shown.
pub open spec fn phase(t: TurnView, name: Seq<char>) -> Seq<ActionView> {
    if t.show_phases {
        seq![ActionView::ShowPhase(t.iteration, t.max_iterations, name)]
    } else {
        Seq::empty()
    }
}

/// Ends the turn with the final answer on the conversation and the latest draft.
pub open spec fn finish(t: TurnView) -> (TurnView, Seq<ActionView>) {
    (
        TurnView { stage: ReactStage::Done, ..t },
        seq![ActionView::StreamFinal(t.working.push(plain_message("system"@, final_answer_note(t.final_draft))))],
    )
}

/// Ends the turn with an error.
pub open spec fn fail(t: TurnView, message: Seq<char>) -> (TurnView, Seq<ActionView>) {
    (TurnView { stage: ReactStage::Done, ..t }, seq![ActionView::Fail(message)])
}

/// Starts the current iteration with its control request.
pub open spec fn begin_iteration(t: TurnView) -> (TurnView, Seq<ActionView>) {
    (
        TurnView { stage: ReactStage::AwaitControl, ..t },
        phase(t, "reasoning"@) + seq![ActionView::RequestControl(control_request(t, false), t.tools_available, true)],
    )
}

/// Moves on to the next iteration, or ends the turn after the last.
pub open spec fn next_iteration(t: TurnView) -> (TurnView, Seq<ActionView>) {
    if t.iteration < t.max_iterations {
        begin_iteration(TurnView { iteration: t.iteration + 1, ..t })
    } else {
        finish(t)
    }
}

/// Takes a decision: keeps its draft, then ends the turn or carries the decision into the
/// next iteration.
pub open spec fn take_decision(t: TurnView, d: DecisionView) -> (TurnView, Seq<ActionView>) {
    let t2 = TurnView { final_draft: d.assistant_message, ..t };
    if finalizes(d, t.iteration, t.max_iterations) {
        finish(t2)
    } else {
        next_iteration(
            TurnView {
                working: t2.working.push(
                    plain_message(
                        "system"@,
                        continue_note(d.assistant_message, d.reflection, t.iteration as int, t.max_iterations as int),
                    ),
                ),
                ..t2
            },
        )
    }
}

/// Asks for the reflection on the tool results.
pub open spec fn to_reflection(t: TurnView) -> (TurnView, Seq<ActionView>) {
    (
        TurnView { stage: ReactStage::AwaitReflection, ..t },
        phase(t, "reflection"@) + seq![ActionView::RequestReflection(control_request(t, true))],
    )
}

/// Prefixes actions.
pub open spec fn after(pre: Seq<ActionView>, r: (TurnView, Seq<ActionView>)) -> (TurnView, Seq<ActionView>) {
    (r.0, pre + r.1)
}

/// Handles the controller's reply: runs the tools it calls, or has its text parsed.
pub open spec fn on_assistant(t: TurnView, m: MessageView) -> (TurnView, Seq<ActionView>) {
    match m.tool_calls {
        Some(calls) => {
            let t2 = TurnView { working: t.working.push(m), pending_calls: calls, next_call: 0, ..t };
            let pre = seq![ActionView::Record(m)] + phase(t, "action"@);
            if calls.len() == 0 {
                after(pre, to_reflection(t2))
            } else {
                (TurnView { stage: ReactStage::AwaitTool, ..t2 }, pre + seq![ActionView::RunTool(calls[0])])
            }
        },
        None => (
            TurnView { stage: ReactStage::AwaitParsedReply, pending_raw: content_or_empty(m), ..t },
            seq![ActionView::ParseDecision(content_or_empty(m))],
        ),
    }
}

/// Records a tool's output, then runs the next tool or asks for the reflection.
pub open spec fn on_tool_output(t: TurnView, output: Seq<char>) -> (TurnView, Seq<ActionView>) {
    let tm = tool_message_view(t.pending_calls[t.next_call as int], output);
    let t2 = TurnView { working: t.working.push(tm), next_call: t.next_call + 1, ..t };
    if t2.next_call < t.pending_calls.len() {
        (t2, seq![ActionView::Record(tm), ActionView::RunTool(t.pending_calls[t2.next_call as int])])
    } else {
        after(seq![ActionView::Record(tm)], to_reflection(t2))
    }
}

/// One step of a ReAct turn: the state after `e` in state `t`, and what the caller must do.
/// Events that do not fit the stage change nothing.
pub open spec fn react_next(t: TurnView, e: EventView) -> (TurnView, Seq<ActionView>) {
    match e {
        EventView::Begin => if t.stage == ReactStage::Start {
            if t.max_iterations == 0 {
                finish(t)
            } else {
                begin_iteration(TurnView { iteration: 1, ..t })
            }
        } else {
            (t, Seq::empty())
        },
        EventView::ControlReply(r) => if t.stage == ReactStage::AwaitControl {
            match r {
                Ok(m) => on_assistant(t, m),
                Err(err) => if is_retryable(err) && t.tools_available {
                    let note = plain_message("system"@, fallback_note_text());
                    let t2 = TurnView {
                        tools_available: false,
                        working: t.working.push(note),
                        stage: ReactStage::AwaitFallbackControl,
                        ..t
                    };
                    (
                        t2,
                        seq![
                            ActionView::Warn(error_text(err)),
                            ActionView::Record(note),
                            ActionView::RequestControl(control_request(t2, false), false, false),
                        ],
                    )
                } else {
                    fail(t, error_text(err))
                },
            }
        } else if t.stage == ReactStage::AwaitFallbackControl {
            match r {
                Ok(m) => on_assistant(t, m),
                Err(err) => fail(t, error_text(err)),
            }
        } else {
            (t, Seq::empty())
        },
        EventView::ToolOutput(out) => if t.stage == ReactStage::AwaitTool {
            on_tool_output(t, out)
        } else {
            (t, Seq::empty())
        },
        EventView::ReflectionReply(r) => if t.stage == ReactStage::AwaitReflection {
            match r {
                Ok(m) => (
                    TurnView { stage: ReactStage::AwaitParsedReflection, pending_raw: content_or_empty(m), ..t },
                    seq![ActionView::ParseDecision(content_or_empty(m))],
                ),
                Err(err) => if is_disallowed_tool_call(err) {
                    after(
                        seq![ActionView::Warn("Reflection step requested another tool; continuing to next iteration."@)],
                        take_decision(t, tool_request_view()),
                    )
                } else {
                    fail(t, error_text(err))
                },
            }
        } else {
            (t, Seq::empty())
        },
        EventView::Parsed(p) => if t.stage == ReactStage::AwaitParsedReflection {
            take_decision(t, decision_of(t.pending_raw, p))
        } else if t.stage == ReactStage::AwaitParsedReply {
            after(phase(t, "reflection"@), take_decision(t, decision_of(t.pending_raw, p)))
        } else {
            (t, Seq::empty())
        },
    }
}

/// The turn's state is consistent: the pending tool call exists, and an iteration under way
/// lies between the first and the bound.
pub open spec fn turn_wf(t: TurnView) -> bool {
    &&& t.stage == ReactStage::AwaitTool ==> t.next_call < t.pending_calls.len()
    &&& (t.stage != ReactStage::Start && t.stage != ReactStage::Done) ==> 1 <= t.iteration
        <= t.max_iterations
}


fn one(a: ReactAction) -> (acts: Vec<ReactAction>)
    ensures
        action_views(acts@) == seq![a@],
{
    let mut acts = Vec::new();
    acts.push(a);
    assert(action_views(acts@) =~= seq![a@]);
    acts
}

fn join(mut first: Vec<ReactAction>, mut second: Vec<ReactAction>) -> (acts: Vec<ReactAction>)
    ensures
        action_views(acts@) == action_views(first@) + action_views(second@),
{
    let ghost a = first@;
    let ghost b = second@;
    first.append(&mut second);
    assert(action_views(first@) =~= action_views(a) + action_views(b));
    first
}

fn text(s: &str) -> (r: String)
    ensures
        r@ == s@,
{
    s.to_owned()
}

impl ReactTurn {
    /// A turn on the conversation `messages` with the ReAct settings of `state`: tools on
    /// offer, no draft yet, phases shown in summary trace mode.
    pub fn new(messages: &Vec<Message>, state: &AppState) -> (turn: ReactTurn)
        ensures
            turn@.working == message_views(messages@),
            turn@.max_iterations == state.react_max_iterations,
            turn@.iteration == 0,
            turn@.final_draft == Seq::<char>::empty(),
            turn@.tools_available,
            turn@.show_phases == (state.react_trace_mode == ReactTraceMode::Summary),
            turn@.stage == ReactStage::Start,
            turn_wf(turn@),
    {
        ReactTurn {
            working_messages: clone_messages(messages),
            max_iterations: state.react_max_iterations,
            iteration: 0,
            final_draft: String::new(),
            tools_available: true,
            show_phases: match state.react_trace_mode {
                ReactTraceMode::Summary => true,
            },
            stage: ReactStage::Start,
            pending_calls: Vec::new(),
            next_call: 0,
            pending_raw: String::new(),
        }
    }

    fn phase_actions(&self, name: &str) -> (acts: Vec<ReactAction>)
        ensures
            action_views(acts@) == phase(self@, name@),
    {
        if self.show_phases {
            one(ReactAction::ShowPhase { iteration: self.iteration, max_iterations: self.max_iterations, phase: text(name) })
        } else {
            let acts = Vec::new();
            assert(action_views(acts@) =~= Seq::<ActionView>::empty());
            acts
        }
    }

    fn finish_turn(&mut self) -> (acts: Vec<ReactAction>)
        ensures
            (final(self)@, action_views(acts@)) == finish(old(self)@),
    {
        self.stage = ReactStage::Done;
        let messages = final_answer_messages(&self.working_messages, self.final_draft.as_str());
        one(ReactAction::StreamFinal { messages })
    }

    fn fail_turn(&mut self, message: String) -> (acts: Vec<ReactAction>)
        ensures
            (final(self)@, action_views(acts@)) == fail(old(self)@, message@),
    {
        self.stage = ReactStage::Done;
        one(ReactAction::Fail(message))
    }

    fn begin_iteration(&mut self) -> (acts: Vec<ReactAction>)
        requires
            old(self).iteration <= old(self).max_iterations,
        ensures
            (final(self)@, action_views(acts@)) == begin_iteration(old(self)@),
    {
        let pre = self.phase_actions("reasoning");
        let messages = build_control_messages(&self.working_messages, self.iteration, self.max_iterations, false);
        self.stage = ReactStage::AwaitControl;
        join(pre, one(ReactAction::RequestControl { messages, allow_tools: self.tools_available, retry: true }))
    }

    fn next_iteration(&mut self) -> (acts: Vec<ReactAction>)
        requires
            old(self).iteration <= old(self).max_iterations,
        ensures
            (final(self)@, action_views(acts@)) == next_iteration(old(self)@),
    {
        if self.iteration < self.max_iterations {
            self.iteration = self.iteration + 1;
            self.begin_iteration()
        } else {
            self.finish_turn()
        }
    }

    fn take_decision(&mut self, d: ReactControlDecision) -> (acts: Vec<ReactAction>)
        requires
            old(self).iteration <= old(self).max_iterations,
        ensures
            (final(self)@, action_views(acts@)) == take_decision(old(self)@, d@),
    {
        self.final_draft = d.assistant_message.clone();
        if should_finalize(&d, self.iteration, self.max_iterations) {
            self.finish_turn()
        } else {
            let note = build_continue_note(
                d.assistant_message.as_str(),
                d.reflection.as_str(),
                self.iteration,
                self.max_iterations,
            );
            let ghost before = self.working_messages@;
            self.working_messages.push(Message::system(note));
            assert(message_views(self.working_messages@) =~= message_views(before).push(
                self.working_messages@.last()@,
            ));
            self.next_iteration()
        }
    }

    fn to_reflection(&mut self) -> (acts: Vec<ReactAction>)
        ensures
            (final(self)@, action_views(acts@)) == to_reflection(old(self)@),
    {
        let pre = self.phase_actions("reflection");
        let messages = build_control_messages(&self.working_messages, self.iteration, self.max_iterations, true);
        self.stage = ReactStage::AwaitReflection;
        join(pre, one(ReactAction::RequestReflection { messages }))
    }

    fn content_text(m: &Message) -> (r: String)
        ensures
            r@ == content_or_empty(m@),
    {
        match &m.content {
            Some(c) => c.clone(),
            None => String::new(),
        }
    }

    fn on_assistant(&mut self, m: Message) -> (acts: Vec<ReactAction>)
        ensures
            (final(self)@, action_views(acts@)) == on_assistant(old(self)@, m@),
    {
        match &m.tool_calls {
            Some(calls) => {
                let calls_copy = clone_calls(calls);
                let recorded = m.clone();
                let ghost before = self.working_messages@;
                let ghost t0 = self@;
                self.working_messages.push(m);
                assert(message_views(self.working_messages@) =~= message_views(before).push(
                    recorded@,
                ));
                self.pending_calls = calls_copy;
                self.next_call = 0;
                let mut pre = one(ReactAction::Record(recorded));
                let shown = self.phase_actions("action");
                assert(phase(self@, "action"@) == phase(t0, "action"@));
                pre = join(pre, shown);
                if self.pending_calls.len() == 0 {
                    let rest = self.to_reflection();
                    join(pre, rest)
                } else {
                    self.stage = ReactStage::AwaitTool;
                    let first = self.pending_calls[0].clone();
                    join(pre, one(ReactAction::RunTool(first)))
                }
            },
            None => {
                let raw = Self::content_text(&m);
                self.pending_raw = raw.clone();
                self.stage = ReactStage::AwaitParsedReply;
                one(ReactAction::ParseDecision(raw))
            },
        }
    }

    fn on_tool_output(&mut self, output: String) -> (acts: Vec<ReactAction>)
        requires
            old(self).next_call < old(self).pending_calls.len(),
        ensures
            (final(self)@, action_views(acts@)) == on_tool_output(old(self)@, output@),
    {
        let call = self.pending_calls[self.next_call].clone();
        let tm = Message::tool(call.id, call.function.name, output);
        let recorded = tm.clone();
        let ghost before = self.working_messages@;
        self.working_messages.push(tm);
        assert(message_views(self.working_messages@) =~= message_views(before).push(recorded@));
        self.next_call = self.next_call + 1;
        let pre = one(ReactAction::Record(recorded));
        if self.next_call < self.pending_calls.len() {
            let next = self.pending_calls[self.next_call].clone();
            join(pre, one(ReactAction::RunTool(next)))
        } else {
            let rest = self.to_reflection();
            join(pre, rest)
        }
    }

    /// Advances the turn by one event (see [`react_next`]).
    pub fn step(&mut self, event: ReactEvent) -> (actions: Vec<ReactAction>)
        requires
            turn_wf(old(self)@),
        ensures
            (final(self)@, action_views(actions@)) == react_next(old(self)@, event@),
            turn_wf(final(self)@),
    {
        let ghost e = event@;
        let none = Vec::new();
        assert(action_views(none@) =~= Seq::<ActionView>::empty());
        match event {
            ReactEvent::Begin => {
                if self.stage != ReactStage::Start {
                    return none;
                }
                if self.max_iterations == 0 {
                    self.finish_turn()
                } else {
                    self.iteration = 1;
                    self.begin_iteration()
                }
            },
            ReactEvent::ControlReply(r) => {
                if self.stage == ReactStage::AwaitControl {
                    match r {
                        Ok(m) => self.on_assistant(m),
                        Err(err) => {
                            if err.is_retryable_tool_400() && self.tools_available {
                                let warning = err.display_message();
                                self.tools_available = false;
                                let note = Message::system(tool_fallback_note());
                                let recorded = note.clone();
                                let ghost before = self.working_messages@;
                                self.working_messages.push(note);
                                assert(message_views(self.working_messages@) =~= message_views(
                                    before,
                                ).push(recorded@));
                                self.stage = ReactStage::AwaitFallbackControl;
                                let messages = build_control_messages(
                                    &self.working_messages,
                                    self.iteration,
                                    self.max_iterations,
                                    false,
                                );
                                let acts = join(
                                    join(one(ReactAction::Warn(warning)), one(ReactAction::Record(recorded))),
                                    one(ReactAction::RequestControl { messages, allow_tools: false, retry: false }),
                                );
                                acts
                            } else {
                                let message = err.display_message();
                                self.fail_turn(message)
                            }
                        },
                    }
                } else if self.stage == ReactStage::AwaitFallbackControl {
                    match r {
                        Ok(m) => self.on_assistant(m),
                        Err(err) => {
                            let message = err.display_message();
                            self.fail_turn(message)
                        },
                    }
                } else {
                    none
                }
            },
            ReactEvent::ToolOutput(out) => {
                if self.stage == ReactStage::AwaitTool {
                    self.on_tool_output(out)
                } else {
                    none
                }
            },
            ReactEvent::ReflectionReply(r) => {
                if self.stage == ReactStage::AwaitReflection {
                    match r {
                        Ok(m) => {
                            let raw = Self::content_text(&m);
                            self.pending_raw = raw.clone();
                            self.stage = ReactStage::AwaitParsedReflection;
                            one(ReactAction::ParseDecision(raw))
                        },
                        Err(err) => {
                            if err.is_disallowed_tool_call_without_tools() {
                                let warn = one(
                                    ReactAction::Warn(
                                        text("Reflection step requested another tool; continuing to next iteration."),
                                    ),
                                );
                                let rest = self.take_decision(tool_request_decision());
                                join(warn, rest)
                            } else {
                                let message = err.display_message();
                                self.fail_turn(message)
                            }
                        },
                    }
                } else {
                    none
                }
            },
            ReactEvent::Parsed(p) => {
                if self.stage == ReactStage::AwaitParsedReflection {
                    let d = parse_control_decision(self.pending_raw.as_str(), p);
                    self.take_decision(d)
                } else if self.stage == ReactStage::AwaitParsedReply {
                    let pre = self.phase_actions("reflection");
                    let d = parse_control_decision(self.pending_raw.as_str(), p);
                    let rest = self.take_decision(d);
                    join(pre, rest)
                } else {
                    none
                }
            },
        }
    }
}


/// Where a single-pass turn stands.
#[derive(Debug, Clone, Copy, PartialEq, Eq, Structural)]
pub enum SinglePassStage {
    /// Before the request.
    Start,
    /// Waiting for the reply to the tool-enabled request.
    AwaitReply,
    /// Waiting for the reply to the request made without tools after the provider rejected
    /// the tool-enabled ones.
    AwaitFallbackReply,
    /// Waiting for the output of the pending tool call `next_call`.
    AwaitTool,
    /// The turn is over.
    Done,
}

/// A turn without the ReAct loop: one request, the tools it calls, then the streamed
/// answer. `messages` is the conversation, which the turn extends.
pub struct SinglePassTurn {
    pub messages: Vec<Message>,
    pub stage: SinglePassStage,
    pub pending_calls: Vec<ToolCall>,
    pub next_call: usize,
}

/// The text of a single-pass turn's state.
#[verifier::ext_equal]
pub struct SinglePassView {
    pub messages: Seq<MessageView>,
    pub stage: SinglePassStage,
    pub pending_calls: Seq<ToolCallView>,
    pub next_call: nat,
}

impl View for SinglePassTurn {
    type V = SinglePassView;

    open spec fn view(&self) -> SinglePassView {
        SinglePassView {
            messages: message_views(self.messages@),
            stage: self.stage,
            pending_calls: call_views(self.pending_calls@),
            next_call: self.next_call as nat,
        }
    }
}

/// The note that asks for an answer without tools.
pub open spec fn without_tools_note() -> Seq<char> {
    "Answer the request without local tools. Clearly note any limitations."@
}

/// Handles the model's reply: runs the tools it calls, or shows its text as the answer.
pub open spec fn single_on_reply(t: SinglePassView, m: MessageView) -> (SinglePassView, Seq<ActionView>) {
    match m.tool_calls {
        Some(calls) => {
            let t2 = SinglePassView { messages: t.messages.push(m), pending_calls: calls, next_call: 0, ..t };
            if calls.len() == 0 {
                (
                    SinglePassView { stage: SinglePassStage::Done, ..t2 },
                    seq![ActionView::Record(m), ActionView::StreamFinal(t2.messages)],
                )
            } else {
                (
                    SinglePassView { stage: SinglePassStage::AwaitTool, ..t2 },
                    seq![ActionView::Record(m), ActionView::RunTool(calls[0])],
                )
            }
        },
        None => (SinglePassView { stage: SinglePassStage::Done, ..t }, seq![ActionView::Answer(content_or_empty(m))]),
    }
}

/// One step of a single-pass turn. Events that do not fit the stage change nothing.
pub open spec fn single_next(t: SinglePassView, e: EventView) -> (SinglePassView, Seq<ActionView>) {
    match e {
        EventView::Begin => if t.stage == SinglePassStage::Start {
            (
                SinglePassView { stage: SinglePassStage::AwaitReply, ..t },
                seq![ActionView::RequestControl(t.messages, true, true)],
            )
        } else {
            (t, Seq::empty())
        },
        EventView::ControlReply(r) => if t.stage == SinglePassStage::AwaitReply {
            match r {
                Ok(m) => single_on_reply(t, m),
                Err(err) => if is_retryable(err) {
                    let note = plain_message("system"@, fallback_note_text());
                    let t2 = SinglePassView {
                        messages: t.messages.push(note),
                        stage: SinglePassStage::AwaitFallbackReply,
                        ..t
                    };
                    (
                        t2,
                        seq![
                            ActionView::Warn(error_text(err)),
                            ActionView::Record(note),
                            ActionView::RequestControl(
                                t2.messages.push(plain_message("system"@, without_tools_note())),
                                false,
                                false,
                            ),
                        ],
                    )
                } else {
                    (SinglePassView { stage: SinglePassStage::Done, ..t }, seq![ActionView::Fail(error_text(err))])
                },
            }
        } else if t.stage == SinglePassStage::AwaitFallbackReply {
            match r {
                Ok(m) => single_on_reply(t, m),
                Err(err) => (SinglePassView { stage: SinglePassStage::Done, ..t }, seq![ActionView::Fail(error_text(err))]),
            }
        } else {
            (t, Seq::empty())
        },
        EventView::ToolOutput(out) => if t.stage == SinglePassStage::AwaitTool {
            let tm = tool_message_view(t.pending_calls[t.next_call as int], out);
            let t2 = SinglePassView { messages: t.messages.push(tm), next_call: t.next_call + 1, ..t };
            if t2.next_call < t.pending_calls.len() {
                (t2, seq![ActionView::Record(tm), ActionView::RunTool(t.pending_calls[t2.next_call as int])])
            } else {
                (
                    SinglePassView { stage: SinglePassStage::Done, ..t2 },
                    seq![ActionView::Record(tm), ActionView::StreamFinal(t2.messages)],
                )
            }
        } else {
            (t, Seq::empty())
        },
        _ => (t, Seq::empty()),
    }
}

/// The pending tool call of a single-pass turn exists.
pub open spec fn single_wf(t: SinglePassView) -> bool {
    t.stage == SinglePassStage::AwaitTool ==> t.next_call < t.pending_calls.len()
}

impl SinglePassTurn {
    /// A turn on the conversation `messages`.
    pub fn new(messages: &Vec<Message>) -> (turn: SinglePassTurn)
        ensures
            turn@.messages == message_views(messages@),
            turn@.stage == SinglePassStage::Start,
            single_wf(turn@),
    {
        SinglePassTurn {
            messages: clone_messages(messages),
            stage: SinglePassStage::Start,
            pending_calls: Vec::new(),
            next_call: 0,
        }
    }

    fn push_message(&mut self, m: Message)
        ensures
            final(self)@ == (SinglePassView { messages: old(self)@.messages.push(m@), ..old(self)@ }),
    {
        let ghost before = self.messages@;
        let ghost mv = m@;
        self.messages.push(m);
        assert(message_views(self.messages@) =~= message_views(before).push(mv));
    }

    fn on_reply(&mut self, m: Message) -> (acts: Vec<ReactAction>)
        ensures
            (final(self)@, action_views(acts@)) == single_on_reply(old(self)@, m@),
    {
        match &m.tool_calls {
            Some(calls) => {
                let calls_copy = clone_calls(calls);
                let recorded = m.clone();
                self.push_message(m);
                self.pending_calls = calls_copy;
                self.next_call = 0;
                if self.pending_calls.len() == 0 {
                    self.stage = SinglePassStage::Done;
                    let messages = clone_messages(&self.messages);
                    join(one(ReactAction::Record(recorded)), one(ReactAction::StreamFinal { messages }))
                } else {
                    self.stage = SinglePassStage::AwaitTool;
                    let first = self.pending_calls[0].clone();
                    join(one(ReactAction::Record(recorded)), one(ReactAction::RunTool(first)))
                }
            },
            None => {
                self.stage = SinglePassStage::Done;
                one(ReactAction::Answer(ReactTurn::content_text(&m)))
            },
        }
    }

    /// Advances the turn by one event (see [`single_next`]).
    pub fn step(&mut self, event: ReactEvent) -> (actions: Vec<ReactAction>)
        requires
            single_wf(old(self)@),
        ensures
            (final(self)@, action_views(actions@)) == single_next(old(self)@, event@),
            single_wf(final(self)@),
    {
        let none = Vec::new();
        assert(action_views(none@) =~= Seq::<ActionView>::empty());
        match event {
            ReactEvent::Begin => {
                if self.stage != SinglePassStage::Start {
                    return none;
                }
                self.stage = SinglePassStage::AwaitReply;
                let messages = clone_messages(&self.messages);
                one(ReactAction::RequestControl { messages, allow_tools: true, retry: true })
            },
            ReactEvent::ControlReply(r) => {
                if self.stage == SinglePassStage::AwaitReply {
                    match r {
                        Ok(m) => self.on_reply(m),
                        Err(err) => {
                            if err.is_retryable_tool_400() {
                                let warning = err.display_message();
                                let note = Message::system(tool_fallback_note());
                                let recorded = note.clone();
                                self.push_message(note);
                                self.stage = SinglePassStage::AwaitFallbackReply;
                                let mut messages = clone_messages(&self.messages);
                                let ghost before = messages@;
                                messages.push(Message::system(text("Answer the request without local tools. Clearly note any limitations.")));
                                assert(message_views(messages@) =~= message_views(before).push(messages@.last()@));
                                join(
                                    join(one(ReactAction::Warn(warning)), one(ReactAction::Record(recorded))),
                                    one(ReactAction::RequestControl { messages, allow_tools: false, retry: false }),
                                )
                            } else {
                                self.stage = SinglePassStage::Done;
                                one(ReactAction::Fail(err.display_message()))
                            }
                        },
                    }
                } else if self.stage == SinglePassStage::AwaitFallbackReply {
                    match r {
                        Ok(m) => self.on_reply(m),
                        Err(err) => {
                            self.stage = SinglePassStage::Done;
                            one(ReactAction::Fail(err.display_message()))
                        },
                    }
                } else {
                    none
                }
            },
            ReactEvent::ToolOutput(out) => {
                if self.stage != SinglePassStage::AwaitTool {
                    return none;
                }
                let idx = self.next_call;
                let count = self.pending_calls.len();
                let call = self.pending_calls[idx].clone();
                let tm = Message::tool(call.id, call.function.name, out);
                let recorded = tm.clone();
                self.push_message(tm);
                assert(self.pending_calls@.len() == count);
                self.next_call = idx + 1;
                if self.next_call < count {
                    let next = self.pending_calls[self.next_call].clone();
                    join(one(ReactAction::Record(recorded)), one(ReactAction::RunTool(next)))
                } else {
                    self.stage = SinglePassStage::Done;
                    let messages = clone_messages(&self.messages);
                    join(one(ReactAction::Record(recorded)), one(ReactAction::StreamFinal { messages }))
                }
            },
            _ => none,
        }
    }
}


/// How far a stage lies from the end of its iteration.
pub open spec fn stage_rank(s: ReactStage) -> int {
    match s {
        ReactStage::Start => 6,
        ReactStage::AwaitControl => 5,
        ReactStage::AwaitFallbackControl => 4,
        ReactStage::AwaitTool => 3,
        ReactStage::AwaitReflection => 2,
        ReactStage::AwaitParsedReflection => 1,
        ReactStage::AwaitParsedReply => 1,
        ReactStage::Done => 0,
    }
}

/// What remains of a turn: the iterations left, the stage within the iteration, and the
/// tool calls left.
pub open spec fn turn_measure(t: TurnView) -> (int, int, int) {
    (
        if t.stage == ReactStage::Start { t.max_iterations + 1int } else { t.max_iterations - t.iteration },
        stage_rank(t.stage),
        t.pending_calls.len() - t.next_call,
    )
}

/// The tool message that answers call `c` with `output`.
pub open spec fn answer_to_call(c: ToolCallView, output: Seq<char>) -> MessageView {
    MessageView { role: "tool"@, content: Some(output), tool_call_id: Some(c.id), name: Some(c.name), tool_calls: None }
}

/// The actions ask for a reflection.
pub open spec fn asks_reflection(acts: Seq<ActionView>) -> bool {
    exists|i: int| 0 <= i < acts.len() && #[trigger] acts[i] is RequestReflection
}

/// Every tool call of a reply is run, and its output answers it, before the reflection: a
/// tool's output is recorded as a tool message that names its call and joins the working
/// conversation; while calls remain the next one is run and no reflection is asked for;
/// the reflection comes only once the last call has its answer.
pub proof fn law_every_tool_call_runs_before_reflection(t: TurnView, out: Seq<char>)
    requires
        turn_wf(t),
        t.stage == ReactStage::AwaitTool,
    ensures
        ({
            let (t2, acts) = react_next(t, EventView::ToolOutput(out));
            let answer = answer_to_call(t.pending_calls[t.next_call as int], out);
            &&& acts.len() >= 1
            &&& acts[0] == ActionView::Record(answer)
            &&& t2.working == t.working.push(answer)
            &&& t2.next_call == t.next_call + 1
            &&& t2.pending_calls == t.pending_calls
            &&& t.next_call + 1 < t.pending_calls.len() ==> {
                &&& acts == seq![ActionView::Record(answer), ActionView::RunTool(t.pending_calls[t.next_call + 1int])]
                &&& t2.stage == ReactStage::AwaitTool
            }
            &&& asks_reflection(acts) ==> t2.next_call == t.pending_calls.len()
            &&& t.next_call + 1 == t.pending_calls.len() ==> asks_reflection(acts)
        }),
{
    let (t2, acts) = react_next(t, EventView::ToolOutput(out));
    if t.next_call + 1 < t.pending_calls.len() {
        assert(!(acts[0] is RequestReflection));
        assert(!(acts[1] is RequestReflection));
    } else {
        let t3 = TurnView { working: t.working.push(answer_to_call(t.pending_calls[t.next_call as int], out)), next_call: t.next_call + 1, ..t };
        let ph = phase(t3, "reflection"@);
        assert(acts == seq![ActionView::Record(answer_to_call(t.pending_calls[t.next_call as int], out))] + ph
            + seq![ActionView::RequestReflection(control_request(t3, true))]);
        assert(acts[acts.len() - 1] is RequestReflection);
    }
}

/// A controller reply that calls tools is recorded and its first call is run; no reflection
/// is asked for until the calls have their answers.
pub proof fn law_tool_reply_runs_its_first_call(t: TurnView, m: MessageView)
    requires
        turn_wf(t),
        t.stage == ReactStage::AwaitControl || t.stage == ReactStage::AwaitFallbackControl,
        m.tool_calls matches Some(calls) && calls.len() > 0,
    ensures
        ({
            let (t2, acts) = react_next(t, EventView::ControlReply(Ok(m)));
            let calls = m.tool_calls->0;
            &&& acts.len() >= 1
            &&& acts[0] == ActionView::Record(m)
            &&& acts[acts.len() - 1] == ActionView::RunTool(calls[0])
            &&& !asks_reflection(acts)
            &&& t2.stage == ReactStage::AwaitTool
            &&& t2.pending_calls == calls
            &&& t2.next_call == 0
            &&& t2.working == t.working.push(m)
        }),
{
    let (t2, acts) = react_next(t, EventView::ControlReply(Ok(m)));
    assert forall|i: int| 0 <= i < acts.len() implies !(#[trigger] acts[i] is RequestReflection) by {
        if i > 0 && i < acts.len() - 1 {
            assert(acts[i] is ShowPhase);
        }
    }
}

/// In a single pass too, every tool call is run and answered before the final answer is
/// streamed: while calls remain the next one is run; the stream comes after the last.
pub proof fn law_single_pass_runs_every_tool_call(t: SinglePassView, out: Seq<char>)
    requires
        single_wf(t),
        t.stage == SinglePassStage::AwaitTool,
    ensures
        ({
            let (t2, acts) = single_next(t, EventView::ToolOutput(out));
            let answer = answer_to_call(t.pending_calls[t.next_call as int], out);
            &&& t2.messages == t.messages.push(answer)
            &&& t2.next_call == t.next_call + 1
            &&& t.next_call + 1 < t.pending_calls.len() ==> acts == seq![ActionView::Record(answer), ActionView::RunTool(t.pending_calls[t.next_call + 1int])]
                && t2.stage == SinglePassStage::AwaitTool
            &&& t.next_call + 1 == t.pending_calls.len() ==> acts == seq![ActionView::Record(answer), ActionView::StreamFinal(t2.messages)]
        }),
{
}

/// Lexicographic order on what remains of turns.
pub open spec fn measure_lt(a: (int, int, int), b: (int, int, int)) -> bool {
    a.0 < b.0 || (a.0 == b.0 && (a.1 < b.1 || (a.1 == b.1 && a.2 < b.2)))
}

/// Every event a turn waits for brings it closer to its end, by fewer iterations left, an
/// earlier stage, or fewer tool calls left; the iterations left never go below zero. Every
/// other event changes nothing. So a turn ends after finitely many events.
pub proof fn law_turn_progresses(t: TurnView, e: EventView)
    requires
        turn_wf(t),
    ensures
        ({
            let t2 = react_next(t, e).0;
            t2 == t || t2.stage == ReactStage::Done || measure_lt(turn_measure(t2), turn_measure(t))
        }),
        turn_wf(react_next(t, e).0),
        react_next(t, e).0.stage != ReactStage::Done && react_next(t, e).0.stage != ReactStage::Start
            ==> turn_measure(react_next(t, e).0).0 >= 0,
{
}

/// Once the provider has rejected every tool-enabled request of a turn, no later request
/// of the turn offers tools.
pub proof fn law_tools_stay_off(t: TurnView, e: EventView)
    ensures
        !t.tools_available ==> !react_next(t, e).0.tools_available,
        forall|i: int|
            0 <= i < react_next(t, e).1.len() ==> (#[trigger] react_next(t, e).1[i] matches ActionView::RequestControl(_, allow, _)
                ==> (allow ==> t.tools_available)),
{
}

/// A finished turn stays finished: every event leaves it alone.
pub proof fn law_done_is_final(t: TurnView, e: EventView)
    requires
        t.stage == ReactStage::Done,
    ensures
        react_next(t, e) == (t, Seq::<ActionView>::empty()),
{
}

} // verus!
