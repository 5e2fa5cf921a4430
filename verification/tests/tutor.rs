use rustcoding::tutor::app::{App, AppEvent, ChatMessage, Key, KeyCode, Role};
use rustcoding::tutor::screen::{chat_lines, chat_scroll, shows_input_hint, status_bar, LineStyle};
use rustcoding::tutor::review::{
    classify_input, correction_prompt, review_decision, review_prompt, InputAction, ReplyPrinter, ReviewDecision,
    StreamItem, GRAY, RESET,
};

fn key(code: KeyCode) -> AppEvent {
    AppEvent::Key(Key { code, control: false })
}

#[test]
fn new_app_greets_and_waits() {
    let app = App::new();
    assert_eq!(app.messages.len(), 1);
    assert_eq!(app.messages[0].role, Role::System);
    assert!(app.messages[0].content.starts_with("English Teacher AI"));
    assert_eq!(app.status, "Ready");
    assert!(app.review_mode && app.auto_scroll && !app.is_processing && !app.should_quit);
}

#[test]
fn typing_and_enter_submit_the_input() {
    let mut app = App::new();
    for c in "hi".chars() {
        assert_eq!(app.handle_event(key(KeyCode::Char(c))), None);
    }
    assert_eq!(app.input, "hi");
    assert_eq!(app.cursor_pos, 2);
    app.handle_event(key(KeyCode::Left));
    app.handle_event(key(KeyCode::Char('!')));
    assert_eq!(app.input, "h!i");
    app.handle_event(key(KeyCode::Backspace));
    assert_eq!(app.input, "hi");
    let sent = app.handle_event(key(KeyCode::Enter));
    assert_eq!(sent, Some("hi".to_string()));
    assert_eq!(app.input, "");
    assert_eq!(app.cursor_pos, 0);
    assert!(app.is_processing);
    assert_eq!(app.status, "Teacher is responding...");
    assert_eq!(app.messages.len(), 3);
    assert_eq!(app.messages[1].role, Role::User);
    assert_eq!(app.messages[2].role, Role::Teacher);
}

#[test]
fn keys_are_ignored_while_a_reply_streams() {
    let mut app = App::new();
    app.handle_event(key(KeyCode::Char('a')));
    app.handle_event(key(KeyCode::Enter));
    app.handle_event(key(KeyCode::Char('b')));
    assert_eq!(app.input, "");
    assert_eq!(app.handle_event(key(KeyCode::Enter)), None);
    app.handle_event(AppEvent::FinalReply("done".to_string()));
    assert!(!app.is_processing);
    assert_eq!(app.status, "Ready");
}

#[test]
fn streamed_text_and_thinking_join_the_latest_message() {
    let mut app = App::new();
    app.handle_event(key(KeyCode::Char('q')));
    app.handle_event(key(KeyCode::Enter));
    app.handle_event(AppEvent::ThinkingChunk("hmm".to_string()));
    app.handle_event(AppEvent::ThinkingEnd);
    app.handle_event(AppEvent::StreamChunk("Hello".to_string()));
    assert_eq!(app.messages[2].content, "\n[thinking]\nhmm\n[/thinking]\n\nHello");
    app.handle_event(AppEvent::ThinkingChunk("again".to_string()));
    app.handle_event(AppEvent::StreamChunk("!".to_string()));
    assert_eq!(app.messages[2].content, "\n[thinking]\nhmm\n[/thinking]\n\nHello\n[thinking]\nagain\n\n!");
}

#[test]
fn proofreader_events_update_status_and_chat() {
    let mut app = App::new();
    app.handle_event(AppEvent::ReviewStatus("too long".to_string()));
    assert_eq!(app.status, "Proofreader found issue: too long");
    assert_eq!(app.messages.last().unwrap().role, Role::Proofreader);
    app.handle_event(AppEvent::ReviewOk);
    assert_eq!(app.messages.last().unwrap().content, "Response looks good!");
    app.handle_event(AppEvent::RetryStart);
    assert_eq!(app.status, "Teacher retrying...");
    app.handle_event(AppEvent::Error("boom".to_string()));
    assert_eq!(app.status, "Error: boom");
    assert_eq!(app.messages.last().unwrap().content, "Error: boom");
}

#[test]
fn control_keys_quit_and_scroll() {
    let mut app = App::new();
    app.handle_event(key(KeyCode::Up));
    assert_eq!(app.scroll_offset, 0);
    assert!(!app.auto_scroll);
    app.handle_event(key(KeyCode::Down));
    assert_eq!(app.scroll_offset, 1);
    app.handle_event(key(KeyCode::F(2)));
    assert!(!app.review_mode);
    assert_eq!(app.status, "Review mode: OFF");
    app.handle_event(AppEvent::Key(Key { code: KeyCode::Char('x'), control: true }));
    assert!(!app.should_quit);
    app.handle_event(AppEvent::Key(Key { code: KeyCode::Char('c'), control: true }));
    assert!(app.should_quit);
}

#[test]
fn input_lines_and_prompts() {
    assert!(matches!(classify_input("  \n"), InputAction::Skip));
    assert!(matches!(classify_input(" /quit\n"), InputAction::Quit));
    match classify_input(" hello \n") {
        InputAction::Send(text) => assert_eq!(text, "hello"),
        _ => panic!("expected text"),
    }
    assert_eq!(review_prompt("hi", "Hello!"), "Student said: \"hi\"\n\nTeacher replied: \"Hello!\"\n\nIs this response OK?");
    assert_eq!(
        correction_prompt("typo", "hi"),
        "A proofreader found a problem with your previous response. Feedback: typo\n\nPlease correct your response to the student who said: \"hi\""
    );
    assert!(matches!(review_decision(0, "  OK, fine", "hi"), ReviewDecision::Approved));
    assert!(matches!(review_decision(0, "Wrong tense", "hi"), ReviewDecision::Retry(_)));
    assert!(matches!(review_decision(1, "Wrong tense", "hi"), ReviewDecision::Keep));
}

#[test]
fn reply_printer_dims_reasoning() {
    let mut p = ReplyPrinter::new();
    assert_eq!(p.step(StreamItem::Reasoning("think".to_string())), format!("{GRAY}[thinking] think"));
    assert_eq!(p.step(StreamItem::Reasoning("more".to_string())), "more");
    assert_eq!(p.step(StreamItem::Text("Hi".to_string())), format!("{RESET}\nHi"));
    assert_eq!(p.step(StreamItem::Final), "\n");
    assert_eq!(p.full_reply, "Hi");
}

#[test]
fn cursor_stays_inside_multibyte_input() {
    let mut app = App::new();
    app.handle_event(key(KeyCode::Char('é')));
    assert_eq!(app.input, "é");
    assert_eq!(app.cursor_pos, 1);
    app.handle_event(key(KeyCode::Right));
    assert_eq!(app.cursor_pos, 2);
    app.handle_event(key(KeyCode::Right));
    assert_eq!(app.cursor_pos, 2);
    assert!(app.cursor_pos <= app.input.len());
}

#[test]
fn chat_lines_head_each_message_and_dim_reasoning() {
    let messages = vec![
        ChatMessage { role: Role::User, content: "hi".to_string(), is_thinking: false },
        ChatMessage {
            role: Role::Teacher,
            content: "\n[thinking]\nhmm\n[/thinking]\n\n> note\nHello!\r\n".to_string(),
            is_thinking: false,
        },
    ];
    let lines = chat_lines(&messages);
    let seen: Vec<(String, LineStyle)> = lines.into_iter().map(|l| (l.text, l.style)).collect();
    let expected = vec![
        ("You: ".to_string(), LineStyle::Speaker(Role::User)),
        ("hi".to_string(), LineStyle::Plain),
        ("".to_string(), LineStyle::Blank),
        ("Teacher: ".to_string(), LineStyle::Speaker(Role::Teacher)),
        ("".to_string(), LineStyle::Plain),
        ("[thinking]".to_string(), LineStyle::Dim),
        ("hmm".to_string(), LineStyle::Plain),
        ("[/thinking]".to_string(), LineStyle::Dim),
        ("".to_string(), LineStyle::Plain),
        ("> note".to_string(), LineStyle::Dim),
        ("Hello!".to_string(), LineStyle::Plain),
        ("".to_string(), LineStyle::Blank),
    ];
    assert_eq!(seen, expected);
}

#[test]
fn chat_scroll_follows_the_end_or_clamps() {
    assert_eq!(chat_scroll(true, 0, 30, 12), 20);
    assert_eq!(chat_scroll(false, 5, 30, 12), 5);
    assert_eq!(chat_scroll(false, 25, 30, 12), 20);
    assert_eq!(chat_scroll(true, 0, 4, 12), 0);
    assert_eq!(chat_scroll(true, 0, 4, 1), 4);
}

#[test]
fn status_bar_counts_exchanges() {
    assert_eq!(status_bar("Ready", true, 3), " Status: Ready | Review Mode: ON (F2 to toggle) | History: 1 ");
    assert_eq!(status_bar("Busy", false, 4), " Status: Busy | Review Mode: OFF (F2 to toggle) | History: 2 ");
    assert!(shows_input_hint("", false));
    assert!(!shows_input_hint("", true));
    assert!(!shows_input_hint("a", false));
}
