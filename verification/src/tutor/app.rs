use vstd::prelude::*;
use vstd::utf8::{encode_scalar, encode_utf8};
use crate::text::push_str;

verus! {

/// The byte position of character `k` of `s` in its UTF-8 encoding.
pub open spec fn byte_offset(s: Seq<char>, k: int) -> int {
    encode_utf8(s.take(k)).len() as int
}

/// Byte position `b` is where a character of `s` starts, or its end.
pub open spec fn is_char_start(s: Seq<char>, b: int) -> bool {
    exists|k: int| 0 <= k <= s.len() && byte_offset(s, k) == b
}

/// The index of the character of `s` that starts at byte position `b`.
pub open spec fn char_index(s: Seq<char>, b: int) -> int {
    choose|k: int| 0 <= k <= s.len() && byte_offset(s, k) == b
}

/// The length in bytes of the UTF-8 encoding of `s`.
pub open spec fn byte_len(s: Seq<char>) -> int {
    encode_utf8(s).len() as int
}

/// std's `String::insert`, which its documentation says inserts `c` at byte position
/// `idx` and panics unless `idx` lies on a char boundary: here, the characters after the
/// position move up by one.
#[verifier::external_body]
fn string_insert(s: &mut String, idx: usize, c: char)
    requires
        is_char_start(old(s)@, idx as int),
    ensures
        final(s)@ == old(s)@.insert(char_index(old(s)@, idx as int), c),
{
    s.insert(idx, c);
}

/// std's `String::remove`, which its documentation says removes and returns the char at
/// byte position `idx`, and panics unless `idx` lies on a char boundary before the end.
#[verifier::external_body]
fn string_remove(s: &mut String, idx: usize) -> (c: char)
    requires
        is_char_start(old(s)@, idx as int),
        idx < byte_len(old(s)@),
    ensures
        c == old(s)@[char_index(old(s)@, idx as int)],
        final(s)@ == old(s)@.remove(char_index(old(s)@, idx as int)),
{
    s.remove(idx)
}

/// Who wrote a message of the chat.
#[derive(Debug, Clone, Copy, PartialEq, Eq, Structural)]
pub enum Role {
    User,
    Teacher,
    Proofreader,
    System,
}

/// A message of the chat as shown: who wrote it, its text, and whether its text ends in
/// an open thinking section.
#[derive(Debug)]
pub struct ChatMessage {
    pub role: Role,
    pub content: String,
    pub is_thinking: bool,
}

/// The text of a chat message.
pub struct ChatMessageView {
    pub role: Role,
    pub content: Seq<char>,
    pub is_thinking: bool,
}

impl View for ChatMessage {
    type V = ChatMessageView;

    open spec fn view(&self) -> ChatMessageView {
        ChatMessageView { role: self.role, content: self.content@, is_thinking: self.is_thinking }
    }
}

impl Clone for ChatMessage {
    fn clone(&self) -> (c: Self)
        ensures
            c@ == self@,
    {
        ChatMessage { role: self.role, content: self.content.clone(), is_thinking: self.is_thinking }
    }
}

/// Who said a turn of the conversation the tutor remembers.
#[derive(Debug, Clone, Copy, PartialEq, Eq, Structural)]
pub enum HistoryRole {
    User,
    Assistant,
}

/// A turn of the conversation the tutor remembers.
#[derive(Debug)]
pub struct HistoryMessage {
    pub role: HistoryRole,
    pub text: String,
}

/// A key of the keyboard.
#[derive(Debug, Clone, Copy, PartialEq, Eq, Structural)]
pub enum KeyCode {
    Char(char),
    Esc,
    Enter,
    Backspace,
    Left,
    Right,
    Up,
    Down,
    F(u8),
    Other,
}

/// A key press: the key, and whether Control was held.
#[derive(Debug, Clone, Copy, PartialEq, Eq, Structural)]
pub struct Key {
    pub code: KeyCode,
    pub control: bool,
}

/// What happened: a key press, a tick of the clock, or news from the teacher and
/// proofreader at work.
#[derive(Debug)]
pub enum AppEvent {
    Key(Key),
    Tick,
    StreamChunk(String),
    ThinkingChunk(String),
    ThinkingEnd,
    StreamComplete(String),
    ReviewStatus(String),
    ReviewOk,
    RetryStart,
    FinalReply(String),
    Error(String),
}

/// The state of the tutor's screen: the chat, the input line and its cursor (a byte
/// position), whether replies are reviewed, the conversation remembered, the status line,
/// the scrolling of the chat, and whether to quit or a reply is under way.
pub struct App {
    pub messages: Vec<ChatMessage>,
    pub input: String,
    pub cursor_pos: usize,
    pub review_mode: bool,
    pub history: Vec<HistoryMessage>,
    pub status: String,
    pub scroll_offset: u16,
    pub auto_scroll: bool,
    pub should_quit: bool,
    pub is_processing: bool,
}

/// The text of the tutor's screen state; the remembered conversation is left out, as
/// nothing here changes it.
#[verifier::ext_equal]
pub struct AppView {
    pub messages: Seq<ChatMessageView>,
    pub input: Seq<char>,
    pub cursor_pos: int,
    pub review_mode: bool,
    pub status: Seq<char>,
    pub scroll_offset: u16,
    pub auto_scroll: bool,
    pub should_quit: bool,
    pub is_processing: bool,
}

/// The texts of chat messages.
pub open spec fn chat_views(ms: Seq<ChatMessage>) -> Seq<ChatMessageView> {
    ms.map_values(|m: ChatMessage| m@)
}

impl View for App {
    type V = AppView;

    open spec fn view(&self) -> AppView {
        AppView {
            messages: chat_views(self.messages@),
            input: self.input@,
            cursor_pos: self.cursor_pos as int,
            review_mode: self.review_mode,
            status: self.status@,
            scroll_offset: self.scroll_offset,
            auto_scroll: self.auto_scroll,
            should_quit: self.should_quit,
            is_processing: self.is_processing,
        }
    }
}

/// The text of an event.
pub enum EventView {
    Key(Key),
    Tick,
    StreamChunk(Seq<char>),
    ThinkingChunk(Seq<char>),
    ThinkingEnd,
    StreamComplete(Seq<char>),
    ReviewStatus(Seq<char>),
    ReviewOk,
    RetryStart,
    FinalReply(Seq<char>),
    Error(Seq<char>),
}

impl View for AppEvent {
    type V = EventView;

    open spec fn view(&self) -> EventView {
        match self {
            AppEvent::Key(k) => EventView::Key(*k),
            AppEvent::Tick => EventView::Tick,
            AppEvent::StreamChunk(s) => EventView::StreamChunk(s@),
            AppEvent::ThinkingChunk(s) => EventView::ThinkingChunk(s@),
            AppEvent::ThinkingEnd => EventView::ThinkingEnd,
            AppEvent::StreamComplete(s) => EventView::StreamComplete(s@),
            AppEvent::ReviewStatus(s) => EventView::ReviewStatus(s@),
            AppEvent::ReviewOk => EventView::ReviewOk,
            AppEvent::RetryStart => EventView::RetryStart,
            AppEvent::FinalReply(s) => EventView::FinalReply(s@),
            AppEvent::Error(s) => EventView::Error(s@),
        }
    }
}

/// A message as the chat first shows it.
pub open spec fn fresh(role: Role, content: Seq<char>) -> ChatMessageView {
    ChatMessageView { role, content, is_thinking: false }
}

/// The greeting the chat starts with.
pub open spec fn greeting_text() -> Seq<char> {
    "English Teacher AI (with proofreader)\nType a message and press Enter. Press Esc or Ctrl+C to quit. Press F2 to toggle review mode."@
}

/// A key press on the screen state: the new state, and the text to send to the teacher
/// when Enter submits the input.
pub open spec fn key_next(a: AppView, k: Key) -> (AppView, Option<Seq<char>>) {
    if k.control {
        (if k.code == KeyCode::Char('c') { AppView { should_quit: true, ..a } } else { a }, None)
    } else {
        match k.code {
            KeyCode::Esc => (AppView { should_quit: true, ..a }, None),
            KeyCode::Enter => if a.input.len() > 0 && !a.is_processing {
                (
                    AppView {
                        input: Seq::empty(),
                        cursor_pos: 0,
                        messages: a.messages.push(fresh(Role::User, a.input)).push(fresh(Role::Teacher, Seq::empty())),
                        is_processing: true,
                        status: "Teacher is responding..."@,
                        scroll_offset: 0,
                        auto_scroll: true,
                        ..a
                    },
                    Some(a.input),
                )
            } else {
                (a, None)
            },
            KeyCode::Char(c) => (
                if !a.is_processing {
                    AppView {
                        input: a.input.insert(char_index(a.input, a.cursor_pos), c),
                        cursor_pos: a.cursor_pos + 1,
                        ..a
                    }
                } else {
                    a
                },
                None,
            ),
            KeyCode::Backspace => (
                if !a.is_processing && a.cursor_pos > 0 {
                    AppView {
                        cursor_pos: a.cursor_pos - 1,
                        input: a.input.remove(char_index(a.input, a.cursor_pos - 1)),
                        ..a
                    }
                } else {
                    a
                },
                None,
            ),
            KeyCode::Left => (if a.cursor_pos > 0 { AppView { cursor_pos: a.cursor_pos - 1, ..a } } else { a }, None),
            KeyCode::Right => (
                if a.cursor_pos < byte_len(a.input) { AppView { cursor_pos: a.cursor_pos + 1, ..a } } else { a },
                None,
            ),
            KeyCode::Up => (
                AppView {
                    auto_scroll: false,
                    scroll_offset: if a.scroll_offset > 0 { (a.scroll_offset - 1) as u16 } else { 0 },
                    ..a
                },
                None,
            ),
            KeyCode::Down => (
                AppView {
                    auto_scroll: false,
                    scroll_offset: if a.scroll_offset < u16::MAX { (a.scroll_offset + 1) as u16 } else { u16::MAX },
                    ..a
                },
                None,
            ),
            KeyCode::F(n) => (
                if n == 2 {
                    AppView {
                        review_mode: !a.review_mode,
                        status: "Review mode: "@ + if !a.review_mode { "ON"@ } else { "OFF"@ },
                        ..a
                    }
                } else {
                    a
                },
                None,
            ),
            KeyCode::Other => (a, None),
        }
    }
}

/// The key press can be handled without a panic: the cursor stands where a character
/// starts when one is typed or erased before it, and the input has room to grow (no
/// string is longer than a `usize` counts).
pub open spec fn key_is_safe(a: AppView, k: Key) -> bool {
    !k.control ==> match k.code {
        KeyCode::Char(_) => !a.is_processing ==> is_char_start(a.input, a.cursor_pos) && byte_len(a.input) + 4
            <= usize::MAX,
        KeyCode::Backspace => !a.is_processing && a.cursor_pos > 0 ==> is_char_start(a.input, a.cursor_pos - 1)
            && a.cursor_pos - 1 < byte_len(a.input),
        KeyCode::Right => byte_len(a.input) <= usize::MAX,
        _ => true,
    }
}

/// Appends streamed text to the latest message when `role` wrote it, closing an open
/// thinking section with a blank line first; otherwise starts a new message.
pub open spec fn append_to_latest(ms: Seq<ChatMessageView>, role: Role, text: Seq<char>) -> Seq<ChatMessageView> {
    if ms.len() > 0 && ms.last().role == role {
        let m = ms.last();
        ms.update(
            ms.len() - 1,
            ChatMessageView {
                content: (if m.is_thinking { m.content + "\n\n"@ } else { m.content }) + text,
                is_thinking: false,
                ..m
            },
        )
    } else {
        ms.push(fresh(role, text))
    }
}

/// Appends reasoning text to the latest message when the teacher wrote it, opening a
/// thinking section first if none is open; otherwise nothing.
pub open spec fn append_thinking(ms: Seq<ChatMessageView>, text: Seq<char>) -> Seq<ChatMessageView> {
    if ms.len() > 0 && ms.last().role == Role::Teacher {
        let m = ms.last();
        ms.update(
            ms.len() - 1,
            ChatMessageView {
                content: (if !m.is_thinking { m.content + "\n[thinking]\n"@ } else { m.content }) + text,
                is_thinking: true,
                ..m
            },
        )
    } else {
        ms
    }
}

/// Closes the thinking section of the latest message, when the teacher wrote it and one
/// is open.
pub open spec fn end_thinking(ms: Seq<ChatMessageView>) -> Seq<ChatMessageView> {
    if ms.len() > 0 && ms.last().role == Role::Teacher && ms.last().is_thinking {
        let m = ms.last();
        ms.update(ms.len() - 1, ChatMessageView { content: m.content + "\n[/thinking]\n\n"@, is_thinking: false, ..m })
    } else {
        ms
    }
}

/// An event on the screen state: the new state, and the text to send to the teacher when
/// the input is submitted.
pub open spec fn app_next(a: AppView, e: EventView) -> (AppView, Option<Seq<char>>) {
    match e {
        EventView::Key(k) => key_next(a, k),
        EventView::Tick => (a, None),
        EventView::StreamChunk(text) => (AppView { messages: append_to_latest(a.messages, Role::Teacher, text), ..a }, None),
        EventView::ThinkingChunk(text) => (AppView { messages: append_thinking(a.messages, text), ..a }, None),
        EventView::ThinkingEnd => (AppView { messages: end_thinking(a.messages), ..a }, None),
        EventView::StreamComplete(_) => (AppView { status: "Teacher finished typing"@, ..a }, None),
        EventView::ReviewStatus(text) => (
            AppView {
                status: "Proofreader found issue: "@ + text,
                messages: a.messages.push(fresh(Role::Proofreader, text)),
                ..a
            },
            None,
        ),
        EventView::ReviewOk => (
            AppView {
                status: "Proofreader approved response"@,
                messages: a.messages.push(fresh(Role::Proofreader, "Response looks good!"@)),
                ..a
            },
            None,
        ),
        EventView::RetryStart => (
            AppView {
                status: "Teacher retrying..."@,
                messages: a.messages.push(fresh(Role::Teacher, Seq::empty())),
                ..a
            },
            None,
        ),
        EventView::FinalReply(_) => (AppView { is_processing: false, status: "Ready"@, ..a }, None),
        EventView::Error(err) => (
            AppView {
                is_processing: false,
                status: "Error: "@ + err,
                messages: a.messages.push(fresh(Role::System, "Error: "@ + err)),
                ..a
            },
            None,
        ),
    }
}

/// The event can be handled without a panic (see [`key_is_safe`]).
pub open spec fn event_is_safe(a: AppView, e: EventView) -> bool {
    match e {
        EventView::Key(k) => key_is_safe(a, k),
        _ => true,
    }
}

fn owned(s: &str) -> (r: String)
    ensures
        r@ == s@,
{
    s.to_owned()
}

impl App {
    /// The screen at start: the greeting, an empty input, review on, status `Ready`, the
    /// chat scrolled to the bottom.
    pub fn new() -> (app: App)
        ensures
            app@.messages == seq![fresh(Role::System, greeting_text())],
            app@.input == Seq::<char>::empty(),
            app@.cursor_pos == 0,
            app@.review_mode,
            app.history@.len() == 0,
            app@.status == "Ready"@,
            app@.scroll_offset == 0,
            app@.auto_scroll,
            !app@.should_quit,
            !app@.is_processing,
    {
        let mut messages: Vec<ChatMessage> = Vec::new();
        messages.push(
            ChatMessage {
                role: Role::System,
                content: owned("English Teacher AI (with proofreader)\nType a message and press Enter. Press Esc or Ctrl+C to quit. Press F2 to toggle review mode."),
                is_thinking: false,
            },
        );
        let app = App {
            messages,
            input: String::new(),
            cursor_pos: 0,
            review_mode: true,
            history: Vec::new(),
            status: owned("Ready"),
            scroll_offset: 0,
            auto_scroll: true,
            should_quit: false,
            is_processing: false,
        };
        assert(app@.messages =~= seq![fresh(Role::System, greeting_text())]);
        app
    }

    fn push_message(&mut self, role: Role, content: String)
        ensures
            final(self)@ == (AppView { messages: old(self)@.messages.push(fresh(role, content@)), ..old(self)@ }),
            final(self).history == old(self).history,
    {
        let ghost before = self.messages@;
        self.messages.push(ChatMessage { role, content, is_thinking: false });
        assert(chat_views(self.messages@) =~= chat_views(before).push(fresh(role, content@)));
    }

    /// Handles a key press (see [`key_next`]).
    pub fn handle_key_event(&mut self, key_event: Key) -> (r: Option<String>)
        requires
            key_is_safe(old(self)@, key_event),
        ensures
            (final(self)@, match r {
                Some(s) => Some(s@),
                None => None,
            }) == key_next(old(self)@, key_event),
            final(self).history == old(self).history,
    {
        if key_event.control {
            if key_event.code == KeyCode::Char('c') {
                self.should_quit = true;
            }
            return None;
        }
        match key_event.code {
            KeyCode::Esc => {
                self.should_quit = true;
                None
            },
            KeyCode::Enter => {
                if self.input.as_str().unicode_len() > 0 && !self.is_processing {
                    let text = self.input.clone();
                    self.input = String::new();
                    self.cursor_pos = 0;
                    self.push_message(Role::User, text.clone());
                    self.push_message(Role::Teacher, String::new());
                    self.is_processing = true;
                    self.status = owned("Teacher is responding...");
                    self.scroll_offset = 0;
                    self.auto_scroll = true;
                    Some(text)
                } else {
                    None
                }
            },
            KeyCode::Char(c) => {
                if !self.is_processing {
                    string_insert(&mut self.input, self.cursor_pos, c);
                    proof {
                        let s = old(self)@.input;
                        let k = char_index(s, old(self).cursor_pos as int);
                        lemma_byte_offset_bound(s, k);
                    }
                    self.cursor_pos = self.cursor_pos + 1;
                }
                None
            },
            KeyCode::Backspace => {
                if !self.is_processing && self.cursor_pos > 0 {
                    self.cursor_pos = self.cursor_pos - 1;
                    string_remove(&mut self.input, self.cursor_pos);
                }
                None
            },
            KeyCode::Left => {
                if self.cursor_pos > 0 {
                    self.cursor_pos = self.cursor_pos - 1;
                }
                None
            },
            KeyCode::Right => {
                if self.cursor_pos < self.input.as_str().len() {
                    self.cursor_pos = self.cursor_pos + 1;
                }
                None
            },
            KeyCode::Up => {
                self.auto_scroll = false;
                self.scroll_offset = self.scroll_offset.saturating_sub(1);
                None
            },
            KeyCode::Down => {
                self.auto_scroll = false;
                self.scroll_offset = self.scroll_offset.saturating_add(1);
                None
            },
            KeyCode::F(n) => {
                if n == 2 {
                    self.review_mode = !self.review_mode;
                    let mut status = String::new();
                    push_str(&mut status, "Review mode: ");
                    if self.review_mode {
                        push_str(&mut status, "ON");
                    } else {
                        push_str(&mut status, "OFF");
                    }
                    self.status = status;
                }
                None
            },
            KeyCode::Other => None,
        }
    }

    /// Appends streamed text to the latest message (see [`append_to_latest`]).
    pub fn append_to_latest(&mut self, target_role: Role, text: &str)
        ensures
            final(self)@ == (AppView { messages: append_to_latest(old(self)@.messages, target_role, text@), ..old(self)@ }),
            final(self).history == old(self).history,
    {
        let n = self.messages.len();
        if n > 0 && self.messages[n - 1].role == target_role {
            let ghost before = self.messages@;
            let mut msg = self.messages.pop().unwrap();
            if msg.is_thinking {
                push_str(&mut msg.content, "\n\n");
                msg.is_thinking = false;
            }
            push_str(&mut msg.content, text);
            self.messages.push(msg);
            assert(chat_views(self.messages@) =~= append_to_latest(chat_views(before), target_role, text@));
            return;
        }
        self.push_message(target_role, owned(text));
    }

    /// Appends reasoning text to the latest message (see [`append_thinking`]).
    pub fn append_to_latest_thinking(&mut self, text: &str)
        ensures
            final(self)@ == (AppView { messages: append_thinking(old(self)@.messages, text@), ..old(self)@ }),
            final(self).history == old(self).history,
    {
        let n = self.messages.len();
        if n > 0 && self.messages[n - 1].role == Role::Teacher {
            let ghost before = self.messages@;
            let mut msg = self.messages.pop().unwrap();
            if !msg.is_thinking {
                push_str(&mut msg.content, "\n[thinking]\n");
                msg.is_thinking = true;
            }
            push_str(&mut msg.content, text);
            self.messages.push(msg);
            assert(chat_views(self.messages@) =~= append_thinking(chat_views(before), text@));
        }
    }

    /// Closes the thinking section of the latest message (see [`end_thinking`]).
    pub fn end_thinking(&mut self)
        ensures
            final(self)@ == (AppView { messages: end_thinking(old(self)@.messages), ..old(self)@ }),
            final(self).history == old(self).history,
    {
        let n = self.messages.len();
        if n > 0 && self.messages[n - 1].role == Role::Teacher && self.messages[n - 1].is_thinking {
            let ghost before = self.messages@;
            let mut msg = self.messages.pop().unwrap();
            push_str(&mut msg.content, "\n[/thinking]\n\n");
            msg.is_thinking = false;
            self.messages.push(msg);
            assert(chat_views(self.messages@) =~= end_thinking(chat_views(before)));
        }
    }

    /// Handles an event (see [`app_next`]); returns the text to send to the teacher when
    /// the user submits the input.
    pub fn handle_event(&mut self, event: AppEvent) -> (r: Option<String>)
        requires
            event_is_safe(old(self)@, event@),
        ensures
            (final(self)@, match r {
                Some(s) => Some(s@),
                None => None,
            }) == app_next(old(self)@, event@),
            final(self).history == old(self).history,
    {
        match event {
            AppEvent::Key(key_event) => self.handle_key_event(key_event),
            AppEvent::Tick => None,
            AppEvent::StreamChunk(text) => {
                self.append_to_latest(Role::Teacher, text.as_str());
                None
            },
            AppEvent::ThinkingChunk(text) => {
                self.append_to_latest_thinking(text.as_str());
                None
            },
            AppEvent::ThinkingEnd => {
                self.end_thinking();
                None
            },
            AppEvent::StreamComplete(_full_text) => {
                self.status = owned("Teacher finished typing");
                None
            },
            AppEvent::ReviewStatus(text) => {
                let mut status = String::new();
                push_str(&mut status, "Proofreader found issue: ");
                push_str(&mut status, text.as_str());
                self.status = status;
                self.push_message(Role::Proofreader, text);
                None
            },
            AppEvent::ReviewOk => {
                self.status = owned("Proofreader approved response");
                self.push_message(Role::Proofreader, owned("Response looks good!"));
                None
            },
            AppEvent::RetryStart => {
                self.status = owned("Teacher retrying...");
                self.push_message(Role::Teacher, String::new());
                None
            },
            AppEvent::FinalReply(_text) => {
                self.is_processing = false;
                self.status = owned("Ready");
                None
            },
            AppEvent::Error(err) => {
                self.is_processing = false;
                let mut status = String::new();
                push_str(&mut status, "Error: ");
                push_str(&mut status, err.as_str());
                let content = status.clone();
                self.status = status;
                self.push_message(Role::System, content);
                None
            },
        }
    }
}

/// The cursor never leaves the input: an event that can be handled without a panic keeps it
/// between the start and the end of the input's encoding.
pub proof fn law_cursor_stays_in_input(a: AppView, e: EventView)
    requires
        0 <= a.cursor_pos <= byte_len(a.input),
        event_is_safe(a, e),
    ensures
        0 <= app_next(a, e).0.cursor_pos <= byte_len(app_next(a, e).0.input),
{
    if let EventView::Key(k) = e {
        if !k.control {
            match k.code {
                KeyCode::Char(c) => {
                    if !a.is_processing {
                        let s = a.input;
                        let i = char_index(s, a.cursor_pos);
                        let t = s.insert(i, c);
                        assert(t.take(i + 1) =~= s.take(i) + seq![c]);
                        lemma_encode_utf8_append(s.take(i), seq![c]);
                        assert(seq![c].drop_first() =~= Seq::<char>::empty());
                        assert(encode_utf8(seq![c]) == encode_scalar(c as u32) + encode_utf8(
                            Seq::<char>::empty(),
                        ));
                        lemma_byte_offset_bound(t, i + 1);
                    }
                },
                KeyCode::Backspace => {
                    if !a.is_processing && a.cursor_pos > 0 {
                        let s = a.input;
                        let i = char_index(s, a.cursor_pos - 1);
                        assert(s.take(s.len() as int) =~= s);
                        let t = s.remove(i);
                        assert(t.take(i) =~= s.take(i));
                        lemma_byte_offset_bound(t, i);
                    }
                },
                KeyCode::Enter => {
                    assert(encode_utf8(Seq::<char>::empty()).len() == 0);
                },
                _ => {},
            }
        }
    }
}

/// Character positions further on start at later bytes.
proof fn lemma_byte_offset_increases(s: Seq<char>, j1: int, j2: int)
    requires
        0 <= j1 < j2 <= s.len(),
    ensures
        byte_offset(s, j1) < byte_offset(s, j2),
{
    let mid = s.subrange(j1, j2);
    assert(s.take(j2) =~= s.take(j1) + mid);
    lemma_encode_utf8_append(s.take(j1), mid);
    assert(encode_utf8(mid) == encode_scalar(mid[0] as u32) + encode_utf8(mid.drop_first()));
}

/// The character index of a byte position where a character starts is that character's.
proof fn lemma_char_index_of_offset(s: Seq<char>, k: int)
    requires
        0 <= k <= s.len(),
    ensures
        is_char_start(s, byte_offset(s, k)),
        char_index(s, byte_offset(s, k)) == k,
{
    let b = byte_offset(s, k);
    assert(0 <= k <= s.len() && byte_offset(s, k) == b);
    let j = char_index(s, b);
    if j < k {
        lemma_byte_offset_increases(s, j, k);
    } else if j > k {
        lemma_byte_offset_increases(s, k, j);
    }
}

/// An ASCII character typed at the cursor lands, as one byte, at the cursor's byte position
/// and moves the cursor past it; erasing with Backspace then gives back the input and the
/// cursor as they were.
pub proof fn law_typing_then_erasing_restores(a: AppView, c: char)
    requires
        !a.is_processing,
        is_char_start(a.input, a.cursor_pos),
        (c as u32) <= 0x7F,
    ensures
        ({
            let b = key_next(a, Key { code: KeyCode::Char(c), control: false }).0;
            let z = key_next(b, Key { code: KeyCode::Backspace, control: false }).0;
            &&& encode_utf8(b.input) == encode_utf8(a.input).take(a.cursor_pos) + seq![(c as u32) as u8]
                + encode_utf8(a.input).skip(a.cursor_pos)
            &&& b.cursor_pos == a.cursor_pos + 1
            &&& z.input == a.input
            &&& z.cursor_pos == a.cursor_pos
        }),
{
    let s = a.input;
    let k = char_index(s, a.cursor_pos);
    assert(0 <= k <= s.len() && byte_offset(s, k) == a.cursor_pos);
    let t = s.insert(k, c);
    assert(t =~= s.take(k) + seq![c] + s.skip(k));
    assert(s =~= s.take(k) + s.skip(k));
    lemma_encode_utf8_append(s.take(k), s.skip(k));
    lemma_encode_utf8_append(s.take(k) + seq![c], s.skip(k));
    lemma_encode_utf8_append(s.take(k), seq![c]);
    let cu = c as u32;
    assert((cu & 0x7F) as u8 == cu as u8) by (bit_vector)
        requires cu <= 0x7F;
    assert(seq![c].drop_first() =~= Seq::<char>::empty());
    assert(encode_utf8(seq![c]) == encode_scalar(cu) + encode_utf8(Seq::<char>::empty()));
    assert(encode_utf8(seq![c]) =~= seq![cu as u8]);
    let e = encode_utf8(s);
    let p = encode_utf8(s.take(k));
    assert(e.take(a.cursor_pos) =~= p);
    assert(e.skip(a.cursor_pos) =~= encode_utf8(s.skip(k)));
    assert(t.take(k) =~= s.take(k));
    assert(t.len() == s.len() + 1);
    lemma_char_index_of_offset(t, k);
    assert(t.remove(k) =~= s);
}

/// A character's byte position is at most the length of the whole encoding.
pub proof fn lemma_byte_offset_bound(s: Seq<char>, k: int)
    requires
        0 <= k <= s.len(),
    ensures
        byte_offset(s, k) <= byte_len(s),
{
    lemma_encode_utf8_append(s.take(k), s.skip(k));
    assert(s.take(k) + s.skip(k) =~= s);
}

/// Encoding a concatenation concatenates the encodings.
pub proof fn lemma_encode_utf8_append(a: Seq<char>, b: Seq<char>)
    ensures
        encode_utf8(a + b) == encode_utf8(a) + encode_utf8(b),
    decreases a.len(),
{
    if a.len() == 0 {
        assert(a + b =~= b);
        assert(encode_utf8(a) =~= Seq::<u8>::empty());
        assert(encode_utf8(a) + encode_utf8(b) =~= encode_utf8(b));
    } else {
        lemma_encode_utf8_append(a.drop_first(), b);
        assert((a + b).drop_first() =~= a.drop_first() + b);
        assert((a + b)[0] == a[0]);
        assert(encode_utf8(a + b) =~= encode_utf8(a) + encode_utf8(b));
    }
}

} // verus!
