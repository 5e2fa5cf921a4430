use rustcoding::chatbot::client::{
    build_continue_note, build_control_messages, check_status, first_choice_message, next_retry_step,
    parse_control_decision, sanitize_error_body, should_finalize, tool_fallback_note, ApiRequestError,
    ReactControlDecision, RetryStep, ERROR_BODY_SNIPPET_LEN,
};
use rustcoding::chatbot::config::{
    default_react_enabled, default_react_max_iterations, loaded_or_default, AppState, Config, ReactTraceMode,
    DEFAULT_REACT_MAX_ITERATIONS,
};
use rustcoding::chatbot::models::{
    build_system_prompt, chunk_text, ChatCompletionChoice, ChatCompletionChunk, ChatCompletionResponse,
    ChatCompletionResponseChoice, Delta, Message, ToolCall, ToolFunctionCall, BASE_SYSTEM_PROMPT,
};
use rustcoding::chatbot::react::{ReactAction, ReactEvent, ReactStage, ReactTurn, SinglePassStage, SinglePassTurn};
use rustcoding::chatbot::session::{
    add_user_turn, record_answer, refresh_system_prompt, route_input, start_conversation, InputRoute,
};
use rustcoding::chatbot::sse::SseDecoder;
use rustcoding::chatbot::tools::{
    build_weather_url, plan_tool_call, render_command_report, render_date_report, render_weather_report,
    tokenize_shell_like, tool_listing, tool_specs, validate_command_scope, ToolPlan,
};
use rustcoding::chatbot::ui::{
    apply_system_command, help_command_outcome, help_lines, parse_system_command, select_model,
    select_reasoning_effort, system_settings_lines, tools_command_outcome, user_input, HelpCommandOutcome,
    ModelSelection, SystemCommand, SystemCommandReport, ToolsCommandOutcome,
};

fn state() -> AppState {
    AppState {
        model: "m1".to_string(),
        reasoning_effort: None,
        react_enabled: true,
        react_max_iterations: 5,
        react_trace_mode: ReactTraceMode::Summary,
    }
}

fn config() -> Config {
    Config {
        models: vec!["m1".to_string(), "m2".to_string()],
        reaoning_effor_support_models: vec!["m2".to_string()],
    }
}

fn call(name: &str, arguments: &str) -> ToolCall {
    ToolCall {
        id: "call-1".to_string(),
        kind: "function".to_string(),
        function: ToolFunctionCall { name: name.to_string(), arguments: arguments.to_string() },
    }
}

#[test]
fn sanitize_error_body_normalizes_and_truncates() {
    let input = "line1\n\n   line2\tline3 ".repeat(40);
    let output = sanitize_error_body(&input);
    assert!(output.contains("line1 line2 line3"));
    assert!(output.len() <= ERROR_BODY_SNIPPET_LEN + 3);
    assert!(output.ends_with("..."));
}

#[test]
fn sanitize_error_body_keeps_short_bodies_whole() {
    assert_eq!(sanitize_error_body("  bad\u{3000}request \n"), "bad request");
    assert_eq!(sanitize_error_body(""), "");
}

#[test]
fn only_tool_enabled_400_is_retryable() {
    let retryable = ApiRequestError { status: Some(400), body: "bad request".to_string(), allow_tools: true };
    let not_retryable_status = ApiRequestError { status: Some(401), body: "unauthorized".to_string(), allow_tools: true };
    let not_retryable_tools = ApiRequestError { status: Some(400), body: "bad request".to_string(), allow_tools: false };

    assert!(retryable.is_retryable_tool_400());
    assert!(!not_retryable_status.is_retryable_tool_400());
    assert!(!not_retryable_tools.is_retryable_tool_400());
}

#[test]
fn disallowed_tool_call_is_recognised_in_the_body() {
    let e = ApiRequestError { status: Some(400), body: "x tool_use_failed y".to_string(), allow_tools: false };
    assert!(e.is_disallowed_tool_call_without_tools());
    let e = ApiRequestError { status: Some(400), body: "other".to_string(), allow_tools: false };
    assert!(!e.is_disallowed_tool_call_without_tools());
}

#[test]
fn display_message_shows_status_and_body() {
    let e = ApiRequestError { status: Some(400), body: " bad\nrequest ".to_string(), allow_tools: true };
    assert_eq!(e.display_message(), "HTTP 400 from API: bad request");
    let e = ApiRequestError { status: Some(503), body: "   ".to_string(), allow_tools: true };
    assert_eq!(e.display_message(), "HTTP 503 from API");
    let e = ApiRequestError { status: None, body: "x".to_string(), allow_tools: true };
    assert_eq!(e.display_message(), "Request failed before receiving an HTTP response.");
}

#[test]
fn status_outside_success_is_an_error() {
    assert_eq!(check_status(200, "ok".to_string(), true).unwrap(), "ok");
    let e = check_status(404, "missing".to_string(), false).unwrap_err();
    assert_eq!(e.status, Some(404));
    assert_eq!(e.body, "missing");
    assert!(!e.allow_tools);
}

#[test]
fn first_choice_or_no_choices_error() {
    let reply = ChatCompletionResponse {
        choices: vec![ChatCompletionResponseChoice { message: Message::assistant("hi".to_string()) }],
    };
    assert_eq!(first_choice_message(reply, true).unwrap().content, Some("hi".to_string()));
    let e = first_choice_message(ChatCompletionResponse { choices: vec![] }, true).unwrap_err();
    assert_eq!(e.body, "API returned no choices");
    assert_eq!(e.status, None);
}

#[test]
fn retry_policy_retries_rejected_tool_requests_three_times() {
    let rejected = || Err(ApiRequestError { status: Some(400), body: "b".to_string(), allow_tools: true });
    assert!(matches!(next_retry_step(true, 0, rejected()), RetryStep::Retry(1)));
    assert!(matches!(next_retry_step(true, 1, rejected()), RetryStep::Retry(2)));
    assert!(matches!(next_retry_step(true, 2, rejected()), RetryStep::Finished(Err(_))));
    assert!(matches!(next_retry_step(false, 0, rejected()), RetryStep::Finished(Err(_))));
    assert!(matches!(next_retry_step(true, 0, Ok(Message::assistant("a".to_string()))), RetryStep::Finished(Ok(_))));
}

#[test]
fn system_prompt_mentions_the_iteration_bound() {
    assert_eq!(build_system_prompt(false, 5), BASE_SYSTEM_PROMPT);
    let prompt = build_system_prompt(true, 7);
    assert!(prompt.starts_with(BASE_SYSTEM_PROMPT));
    assert!(prompt.contains("Stop after at most 7 iterations"));
    assert!(prompt.ends_with("- Keep any visible phase summaries concise."));
}

#[test]
fn message_constructors_set_role_and_content() {
    let m = Message::system("s".to_string());
    assert_eq!(m.role, "system");
    assert_eq!(m.content, Some("s".to_string()));
    assert_eq!(Message::user("u".to_string()).role, "user");
    assert_eq!(Message::assistant("a".to_string()).role, "assistant");
    let t = Message::tool("id".to_string(), "name".to_string(), "out".to_string());
    assert_eq!(t.role, "tool");
    assert_eq!(t.tool_call_id, Some("id".to_string()));
    assert_eq!(t.name, Some("name".to_string()));
    assert_eq!(t.content, Some("out".to_string()));
}

#[test]
fn control_messages_end_with_the_control_note() {
    let base = vec![Message::user("q".to_string())];
    let ms = build_control_messages(&base, 2, 5, true);
    assert_eq!(ms.len(), 2);
    let note = ms[1].content.clone().unwrap();
    assert!(note.starts_with("ReAct controller.\nIteration: 2/5.\nReflect on the tool results"));
    assert_eq!(ms[1].role, "system");
}

#[test]
fn continue_note_counts_remaining_iterations_down_to_zero() {
    let note = build_continue_note("draft", "thin", 2, 5);
    assert!(note.contains("Previous draft answer: draft. Previous reflection: thin. Remaining iterations: 3."));
    let note = build_continue_note("d", "r", 6, 5);
    assert!(note.contains("Remaining iterations: 0."));
}

#[test]
fn finalize_at_the_bound_or_on_final() {
    let d = |s: &str| ReactControlDecision { status: s.to_string(), assistant_message: String::new(), reflection: String::new() };
    assert!(should_finalize(&d("FINAL"), 1, 5));
    assert!(!should_finalize(&d("continue"), 1, 5));
    assert!(should_finalize(&d("continue"), 5, 5));
}

#[test]
fn malformed_decision_falls_back_to_final() {
    let d = parse_control_decision("  plain answer \n", None);
    assert_eq!(d.status, "final");
    assert_eq!(d.assistant_message, "plain answer");
    assert_eq!(d.reflection, "Malformed controller output; using final-answer fallback.");
    assert!(tool_fallback_note().starts_with("Local tools are unavailable"));
}

#[test]
fn defaults_of_a_first_session() {
    let s = AppState::default(&config());
    assert_eq!(s.model, "m1");
    assert_eq!(s.reasoning_effort, None);
    assert!(s.react_enabled && default_react_enabled());
    assert_eq!(s.react_max_iterations, DEFAULT_REACT_MAX_ITERATIONS);
    assert_eq!(default_react_max_iterations(), 5);
    assert_eq!(ReactTraceMode::default(), ReactTraceMode::Summary);
    let kept = loaded_or_default(Some(state()), &config());
    assert_eq!(kept.model, "m1");
}

#[test]
fn stream_events_up_to_done() {
    let mut d = SseDecoder::new();
    let first = d.push_text("data: {\"a\":1}\n\ndata: {\"b\"");
    assert_eq!(first, vec!["{\"a\":1}".to_string()]);
    let second = d.push_text(":2}\r\nevent: x\n\ndata: [DONE]\n\ndata: late\n\n");
    assert_eq!(second, vec!["{\"b\":2}".to_string()]);
    assert!(d.done);
}

#[test]
fn chunk_text_takes_the_first_choice() {
    let chunk = ChatCompletionChunk {
        choices: vec![ChatCompletionChoice { delta: Delta { role: None, content: Some("x".to_string()) }, finish_reason: None }],
    };
    assert_eq!(chunk_text(&chunk), Some("x".to_string()));
    assert_eq!(chunk_text(&ChatCompletionChunk { choices: vec![] }), None);
}

#[test]
fn shell_words_split_at_punctuation() {
    assert_eq!(tokenize_shell_like("ls -l|wc"), vec!["ls", "-l", "wc"]);
    assert_eq!(tokenize_shell_like("a  b"), vec!["a", "", "b"]);
}

#[test]
fn commands_stay_in_the_working_directory() {
    assert!(validate_command_scope("ls -la src", "/home/u/p").is_ok());
    assert!(validate_command_scope("cat /home/u/p/a.txt", "/home/u/p").is_ok());
    assert_eq!(
        validate_command_scope("cat ../secret", "/home/u/p").unwrap_err(),
        "Command is not allowed to access parent directories above /home/u/p."
    );
    assert_eq!(
        validate_command_scope("cat '/etc/passwd'", "/home/u/p").unwrap_err(),
        "Absolute paths outside the current directory are not allowed: /etc/passwd"
    );
    assert!(validate_command_scope("cd a/../..", "/w").is_err());
}

#[test]
fn tool_calls_are_planned_by_name() {
    let plan = plan_tool_call(&call("run_bash_command", "{}"), None, None);
    assert_eq!(plan.err(), Some("Failed to parse run_bash_command arguments".to_string()));
    let plan = plan_tool_call(&call("get_current_date_time", "{}"), None, None).unwrap();
    assert!(matches!(plan, ToolPlan::CurrentDateTime));
    let plan = plan_tool_call(&call("get_weather", "{"), None, None).unwrap();
    assert!(matches!(plan, ToolPlan::Weather(None)));
    match plan_tool_call(&call("fly", "{}"), None, None).unwrap() {
        ToolPlan::Reply(text) => assert_eq!(text, "Unsupported tool call: fly"),
        _ => panic!("expected a reply"),
    }
}

#[test]
fn tool_reports_render_empty_streams() {
    assert_eq!(
        render_command_report("ls", 0, " a\n", ""),
        "command: ls\nexit_code: 0\nstdout:\na\nstderr:\n<empty>"
    );
    assert_eq!(
        render_command_report("x", -1, "", "boom"),
        "command: x\nexit_code: -1\nstdout:\n<empty>\nstderr:\nboom\nresult: command failed with a non-zero exit code"
    );
    assert_eq!(render_date_report(0, "2024-01-01\n", ""), "exit_code: 0\ncurrent_date_time: 2024-01-01\nstderr:\n<empty>");
    assert_eq!(render_weather_report("  "), "current_weather: <empty>");
}

#[test]
fn weather_address_encodes_spaces() {
    assert_eq!(build_weather_url(&None), "https://wttr.in/?format=%l:+%C+%t+%h+%w");
    assert_eq!(build_weather_url(&Some("New York".to_string())), "https://wttr.in/New%20York?format=%l:+%C+%t+%h+%w");
}

#[test]
fn tool_listing_marks_required_arguments() {
    let lines = tool_listing(&tool_specs());
    assert_eq!(lines[0], "Available tools:");
    assert!(lines[1].starts_with("  run_bash_command: Execute a bash command"));
    assert_eq!(lines[2], "    arguments:");
    assert!(lines[3].starts_with("      command (required): The bash command"));
    assert!(lines.contains(&"    arguments: none".to_string()));
    assert!(lines.iter().any(|l| l.starts_with("      city (optional): ")));
}

#[test]
fn system_commands_change_the_settings() {
    let mut s = state();
    assert_eq!(apply_system_command("/system react off", &mut s), Ok(SystemCommandReport::ReactDisabled));
    assert!(!s.react_enabled);
    assert_eq!(apply_system_command("/system  max_iterations 9", &mut s), Ok(SystemCommandReport::MaxIterationsSet(9)));
    assert_eq!(s.react_max_iterations, 9);
    assert_eq!(apply_system_command("/system max_iterations 0", &mut s), Err("max_iterations must be greater than 0".to_string()));
    assert_eq!(apply_system_command("/system max_iterations x", &mut s), Err("max_iterations must be a positive integer".to_string()));
    assert_eq!(s.react_max_iterations, 9);
    assert_eq!(apply_system_command("hello", &mut s), Ok(SystemCommandReport::NotSystemCommand));
    assert_eq!(parse_system_command("/system"), SystemCommand::ShowSettings);
    assert_eq!(parse_system_command("/systemx"), SystemCommand::Invalid);
    assert_eq!(parse_system_command("/system trace summary"), SystemCommand::TraceSummary);
}

#[test]
fn settings_and_help_lines() {
    let lines = system_settings_lines(&state());
    assert_eq!(lines, vec!["Current system settings:", "  react: on", "  max_iterations: 5", "  trace: summary"]);
    assert_eq!(help_lines().len(), 9);
    assert_eq!(help_command_outcome("/help"), HelpCommandOutcome::Handled);
    assert_eq!(help_command_outcome("/help "), HelpCommandOutcome::NotHelpCommand);
    assert_eq!(tools_command_outcome("/tools"), ToolsCommandOutcome::Handled);
    assert_eq!(user_input("  /quit \n"), None);
    assert_eq!(user_input(" hi \n"), Some("hi".to_string()));
}

#[test]
fn model_selection_by_number() {
    let mut s = state();
    s.reasoning_effort = Some("high".to_string());
    let mut model = "m1".to_string();
    assert_eq!(select_model(&config(), &mut s, &mut model, "x"), ModelSelection::InvalidInput);
    assert_eq!(select_model(&config(), &mut s, &mut model, "3"), ModelSelection::InvalidSelection);
    assert_eq!(select_model(&config(), &mut s, &mut model, " 2\n"), ModelSelection::Selected { supports_effort: true });
    assert_eq!(model, "m2");
    assert_eq!(s.reasoning_effort, Some("high".to_string()));
    assert_eq!(select_model(&config(), &mut s, &mut model, "1"), ModelSelection::Selected { supports_effort: false });
    assert_eq!(s.reasoning_effort, None);
    assert!(select_reasoning_effort(&mut s, " MEDIUM\n"));
    assert_eq!(s.reasoning_effort, Some("medium".to_string()));
    assert!(!select_reasoning_effort(&mut s, "max"));
    assert_eq!(s.reasoning_effort, None);
}

#[test]
fn react_turn_without_iterations_streams_the_final_answer() {
    let mut s = state();
    s.react_max_iterations = 0;
    let mut turn = ReactTurn::new(&vec![Message::user("q".to_string())], &s);
    let actions = turn.step(ReactEvent::Begin);
    assert_eq!(turn.stage, ReactStage::Done);
    match &actions[..] {
        [ReactAction::StreamFinal { messages }] => {
            assert_eq!(messages.len(), 2);
            assert!(messages[1].content.clone().unwrap().starts_with("Produce the final user-facing answer now."));
        },
        _ => panic!("expected the final answer"),
    }
}

#[test]
fn react_turn_runs_tools_then_reflects() {
    let mut turn = ReactTurn::new(&vec![Message::user("q".to_string())], &state());
    let actions = turn.step(ReactEvent::Begin);
    assert!(matches!(&actions[..], [ReactAction::ShowPhase { iteration: 1, .. }, ReactAction::RequestControl { allow_tools: true, retry: true, .. }]));
    let mut reply = Message::assistant(String::new());
    reply.tool_calls = Some(vec![call("get_current_date_time", "{}")]);
    let actions = turn.step(ReactEvent::ControlReply(Ok(reply)));
    assert!(matches!(&actions[..], [ReactAction::Record(_), ReactAction::ShowPhase { .. }, ReactAction::RunTool(_)]));
    let actions = turn.step(ReactEvent::ToolOutput("now".to_string()));
    assert!(matches!(&actions[..], [ReactAction::Record(_), ReactAction::ShowPhase { .. }, ReactAction::RequestReflection { .. }]));
    let actions = turn.step(ReactEvent::ReflectionReply(Ok(Message::assistant("{}".to_string()))));
    assert!(matches!(&actions[..], [ReactAction::ParseDecision(_)]));
    let done = ReactControlDecision { status: "final".to_string(), assistant_message: "it is now".to_string(), reflection: String::new() };
    let actions = turn.step(ReactEvent::Parsed(Some(done)));
    assert!(matches!(&actions[..], [ReactAction::StreamFinal { .. }]));
    assert_eq!(turn.final_draft, "it is now");
    assert_eq!(turn.working_messages.len(), 3);
}

#[test]
fn react_turn_falls_back_without_tools() {
    let mut turn = ReactTurn::new(&vec![], &state());
    turn.step(ReactEvent::Begin);
    let rejected = ApiRequestError { status: Some(400), body: "no".to_string(), allow_tools: true };
    let actions = turn.step(ReactEvent::ControlReply(Err(rejected)));
    assert!(matches!(&actions[..], [ReactAction::Warn(_), ReactAction::Record(_), ReactAction::RequestControl { allow_tools: false, retry: false, .. }]));
    assert!(!turn.tools_available);
    let failed = ApiRequestError { status: Some(500), body: "down".to_string(), allow_tools: false };
    let actions = turn.step(ReactEvent::ControlReply(Err(failed)));
    match &actions[..] {
        [ReactAction::Fail(text)] => assert_eq!(text, "HTTP 500 from API: down"),
        _ => panic!("expected a failure"),
    }
}

#[test]
fn single_pass_answers_directly() {
    let mut turn = SinglePassTurn::new(&vec![Message::user("q".to_string())]);
    turn.step(ReactEvent::Begin);
    let actions = turn.step(ReactEvent::ControlReply(Ok(Message::assistant("hello".to_string()))));
    match &actions[..] {
        [ReactAction::Answer(text)] => assert_eq!(text, "hello"),
        _ => panic!("expected an answer"),
    }
    assert_eq!(turn.stage, SinglePassStage::Done);
}

#[test]
fn typed_lines_are_routed_in_order() {
    assert_eq!(route_input(""), InputRoute::Skip);
    assert_eq!(route_input("/model"), InputRoute::SelectModel);
    assert_eq!(route_input("/help"), InputRoute::Help);
    assert_eq!(route_input("/tools"), InputRoute::Tools);
    assert_eq!(route_input("/system"), InputRoute::System);
    assert_eq!(route_input("/systemic"), InputRoute::System);
    assert_eq!(route_input("/help me"), InputRoute::Chat);
    assert_eq!(route_input("hello"), InputRoute::Chat);
}

#[test]
fn a_session_keeps_its_system_prompt_first_and_skips_empty_answers() {
    let mut state = AppState {
        model: "m".to_string(),
        reasoning_effort: None,
        react_enabled: true,
        react_max_iterations: 5,
        react_trace_mode: ReactTraceMode::Summary,
    };
    let mut messages = start_conversation(&state);
    assert_eq!(messages.len(), 1);
    assert_eq!(messages[0].role, "system");
    assert_eq!(messages[0].content, Some(build_system_prompt(true, 5)));
    add_user_turn(&mut messages, "hi".to_string());
    record_answer(&mut messages, String::new());
    assert_eq!(messages.len(), 2);
    record_answer(&mut messages, "hello".to_string());
    assert_eq!(messages.len(), 3);
    assert_eq!(messages[1].role, "user");
    assert_eq!(messages[2].role, "assistant");
    assert_eq!(messages[2].content, Some("hello".to_string()));
    state.react_enabled = false;
    refresh_system_prompt(&mut messages, &state);
    assert_eq!(messages.len(), 3);
    assert_eq!(messages[0].content, Some(BASE_SYSTEM_PROMPT.to_string()));
}
