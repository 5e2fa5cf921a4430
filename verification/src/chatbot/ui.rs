use vstd::prelude::*;
use crate::text::{
    chars_eq_ignore_ascii_case, chars_of, decimal, eq_ignore_ascii_case, parse_usize, parsed_usize,
    piece_views, push_decimal_digits, push_str, string_of, trim_chars, trimmed, words, words_of,
};
use crate::chatbot::config::{AppState, Config, ReactTraceMode};
use crate::chatbot::sse::starts_with;
use crate::chatbot::tools::same;
use crate::text::chars_occur_at;

verus! {

/// Whether the input was a `/system` command.
#[derive(Debug, Clone, Copy, PartialEq, Eq, Structural)]
pub enum SystemCommandOutcome {
    Handled,
    NotSystemCommand,
}

/// Whether the input was the `/help` command.
#[derive(Debug, Clone, Copy, PartialEq, Eq, Structural)]
pub enum HelpCommandOutcome {
    Handled,
    NotHelpCommand,
}

/// Whether the input was the `/tools` command.
#[derive(Debug, Clone, Copy, PartialEq, Eq, Structural)]
pub enum ToolsCommandOutcome {
    Handled,
    NotToolsCommand,
}

/// What a `/system` input asks for.
#[derive(Debug, Clone, Copy, PartialEq, Eq, Structural)]
pub enum SystemCommand {
    /// The input does not start with `/system`.
    NotSystemCommand,
    /// `/system`: show the settings.
    ShowSettings,
    /// `/system react on`.
    ReactOn,
    /// `/system react off`.
    ReactOff,
    /// `/system max_iterations <n>` with a positive `n`.
    MaxIterations(usize),
    /// `/system max_iterations <v>` where `v` is no `usize`.
    MaxIterationsNotNumber,
    /// `/system max_iterations 0`.
    MaxIterationsZero,
    /// `/system trace summary`.
    TraceSummary,
    /// Any other `/system` input.
    Invalid,
}

/// What the input asks for, from its white-space separated words.
pub open spec fn system_command_of(input: Seq<char>) -> SystemCommand {
    let w = words(input);
    if !starts_with(input, "/system"@) {
        SystemCommand::NotSystemCommand
    } else if w == seq!["/system"@] {
        SystemCommand::ShowSettings
    } else if w == seq!["/system"@, "react"@, "on"@] {
        SystemCommand::ReactOn
    } else if w == seq!["/system"@, "react"@, "off"@] {
        SystemCommand::ReactOff
    } else if w.len() == 3 && w[0] == "/system"@ && w[1] == "max_iterations"@ {
        match parsed_usize(w[2]) {
            None => SystemCommand::MaxIterationsNotNumber,
            Some(n) => if n == 0 {
                SystemCommand::MaxIterationsZero
            } else {
                SystemCommand::MaxIterations(n as usize)
            },
        }
    } else if w == seq!["/system"@, "trace"@, "summary"@] {
        SystemCommand::TraceSummary
    } else {
        SystemCommand::Invalid
    }
}

fn is_word(w: &Vec<char>, lit: &str) -> (r: bool)
    ensures
        r == (w@ == lit@),
{
    let l = chars_of(lit);
    same(w, &l)
}

/// Reads a `/system` input (see [`system_command_of`]).
pub fn parse_system_command(input: &str) -> (cmd: SystemCommand)
    ensures
        cmd == system_command_of(input@),
{
    let chars = chars_of(input);
    let prefix = chars_of("/system");
    if !chars_occur_at(&chars, &prefix, 0) {
        return SystemCommand::NotSystemCommand;
    }
    let ws = words_of(&chars);
    let ghost w = piece_views(ws@);
    assert(w == words(input@));
    if ws.len() == 1 && is_word(&ws[0], "/system") {
        assert(w =~= seq!["/system"@]);
        return SystemCommand::ShowSettings;
    }
    assert(ws.len() == 1 ==> w != seq!["/system"@] ==> ws@[0]@ != "/system"@);
    if ws.len() == 3 && is_word(&ws[0], "/system") {
        assert(w[0] == ws@[0]@ && w[1] == ws@[1]@ && w[2] == ws@[2]@);
        if is_word(&ws[1], "react") && is_word(&ws[2], "on") {
            assert(w =~= seq!["/system"@, "react"@, "on"@]);
            return SystemCommand::ReactOn;
        }
        if is_word(&ws[1], "react") && is_word(&ws[2], "off") {
            assert(w =~= seq!["/system"@, "react"@, "off"@]);
            proof {
                reveal_strlit("on");
                reveal_strlit("off");
            }
            return SystemCommand::ReactOff;
        }
        if is_word(&ws[1], "max_iterations") {
            proof {
                reveal_strlit("react");
                reveal_strlit("max_iterations");
            }
            return match parse_usize(&ws[2]) {
                None => SystemCommand::MaxIterationsNotNumber,
                Some(n) => if n == 0 {
                    SystemCommand::MaxIterationsZero
                } else {
                    SystemCommand::MaxIterations(n)
                },
            };
        }
        if is_word(&ws[1], "trace") && is_word(&ws[2], "summary") {
            proof {
                reveal_strlit("react");
                reveal_strlit("max_iterations");
                reveal_strlit("trace");
            }
            assert(w =~= seq!["/system"@, "trace"@, "summary"@]);
            return SystemCommand::TraceSummary;
        }
        proof {
            if w == seq!["/system"@, "react"@, "on"@] {
                assert(ws@[1]@ == "react"@ && ws@[2]@ == "on"@);
            }
            if w == seq!["/system"@, "react"@, "off"@] {
                assert(ws@[1]@ == "react"@ && ws@[2]@ == "off"@);
            }
            if w == seq!["/system"@, "trace"@, "summary"@] {
                assert(ws@[1]@ == "trace"@ && ws@[2]@ == "summary"@);
            }
        }
        return SystemCommand::Invalid;
    }
    proof {
        if ws.len() == 3 {
            assert(w[0] == ws@[0]@);
        }
        if w == seq!["/system"@] {
            assert(w.len() == 1);
            assert(w[0] == ws@[0]@);
            assert(ws@[0]@ == "/system"@);
        }
    }
    SystemCommand::Invalid
}

/// What became of a `/system` input.
#[derive(Debug, Clone, Copy, PartialEq, Eq, Structural)]
pub enum SystemCommandReport {
    NotSystemCommand,
    ShowSettings,
    ReactEnabled,
    ReactDisabled,
    MaxIterationsSet(usize),
    TraceSummary,
    Invalid,
}

/// Carries out a `/system` input on the settings: switches ReAct, sets the iteration bound
/// or the trace mode. An iteration bound that is no positive integer is an error and
/// changes nothing.
pub fn apply_system_command(input: &str, app_state: &mut AppState) -> (r: Result<SystemCommandReport, String>)
    ensures
        match system_command_of(input@) {
            SystemCommand::NotSystemCommand => r == Ok::<SystemCommandReport, String>(SystemCommandReport::NotSystemCommand) && *final(app_state) == *old(app_state),
            SystemCommand::ShowSettings => r == Ok::<SystemCommandReport, String>(SystemCommandReport::ShowSettings) && *final(app_state) == *old(app_state),
            SystemCommand::ReactOn => r == Ok::<SystemCommandReport, String>(SystemCommandReport::ReactEnabled) && *final(app_state) == (AppState { react_enabled: true, ..*old(app_state) }),
            SystemCommand::ReactOff => r == Ok::<SystemCommandReport, String>(SystemCommandReport::ReactDisabled) && *final(app_state) == (AppState { react_enabled: false, ..*old(app_state) }),
            SystemCommand::MaxIterations(n) => r == Ok::<SystemCommandReport, String>(SystemCommandReport::MaxIterationsSet(n)) && *final(app_state) == (AppState { react_max_iterations: n, ..*old(app_state) }),
            SystemCommand::MaxIterationsNotNumber => (r matches Err(m) && m@ == "max_iterations must be a positive integer"@) && *final(app_state) == *old(app_state),
            SystemCommand::MaxIterationsZero => (r matches Err(m) && m@ == "max_iterations must be greater than 0"@) && *final(app_state) == *old(app_state),
            SystemCommand::TraceSummary => r == Ok::<SystemCommandReport, String>(SystemCommandReport::TraceSummary) && *final(app_state) == (AppState { react_trace_mode: ReactTraceMode::Summary, ..*old(app_state) }),
            SystemCommand::Invalid => r == Ok::<SystemCommandReport, String>(SystemCommandReport::Invalid) && *final(app_state) == *old(app_state),
        },
{
    match parse_system_command(input) {
        SystemCommand::NotSystemCommand => Ok(SystemCommandReport::NotSystemCommand),
        SystemCommand::ShowSettings => Ok(SystemCommandReport::ShowSettings),
        SystemCommand::ReactOn => {
            app_state.react_enabled = true;
            Ok(SystemCommandReport::ReactEnabled)
        },
        SystemCommand::ReactOff => {
            app_state.react_enabled = false;
            Ok(SystemCommandReport::ReactDisabled)
        },
        SystemCommand::MaxIterations(n) => {
            app_state.react_max_iterations = n;
            Ok(SystemCommandReport::MaxIterationsSet(n))
        },
        SystemCommand::MaxIterationsNotNumber => Err("max_iterations must be a positive integer".to_owned()),
        SystemCommand::MaxIterationsZero => Err("max_iterations must be greater than 0".to_owned()),
        SystemCommand::TraceSummary => {
            app_state.react_trace_mode = ReactTraceMode::Summary;
            Ok(SystemCommandReport::TraceSummary)
        },
        SystemCommand::Invalid => Ok(SystemCommandReport::Invalid),
    }
}

/// Whether the input is the `/help` command.
pub fn help_command_outcome(input: &str) -> (r: HelpCommandOutcome)
    ensures
        r == (if input@ == "/help"@ { HelpCommandOutcome::Handled } else { HelpCommandOutcome::NotHelpCommand }),
{
    if same(&chars_of(input), &chars_of("/help")) {
        HelpCommandOutcome::Handled
    } else {
        HelpCommandOutcome::NotHelpCommand
    }
}

/// Whether the input is the `/tools` command.
pub fn tools_command_outcome(input: &str) -> (r: ToolsCommandOutcome)
    ensures
        r == (if input@ == "/tools"@ { ToolsCommandOutcome::Handled } else { ToolsCommandOutcome::NotToolsCommand }),
{
    if same(&chars_of(input), &chars_of("/tools")) {
        ToolsCommandOutcome::Handled
    } else {
        ToolsCommandOutcome::NotToolsCommand
    }
}

/// The lines that show the settings.
pub open spec fn settings_lines(state: AppState) -> Seq<Seq<char>> {
    seq![
        "Current system settings:"@,
        "  react: "@ + if state.react_enabled { "on"@ } else { "off"@ },
        "  max_iterations: "@ + decimal(state.react_max_iterations as int),
        "  trace: summary"@,
    ]
}

/// The lines that show the settings (see [`settings_lines`]).
pub fn system_settings_lines(app_state: &AppState) -> (lines: Vec<String>)
    ensures
        lines@.map_values(|s: String| s@) == settings_lines(*app_state),
{
    let mut react = String::new();
    push_str(&mut react, "  react: ");
    if app_state.react_enabled {
        push_str(&mut react, "on");
    } else {
        push_str(&mut react, "off");
    }
    let mut max = String::new();
    push_str(&mut max, "  max_iterations: ");
    push_decimal_digits(&mut max, app_state.react_max_iterations as u64);
    let mut trace = String::new();
    push_str(&mut trace, "  trace: ");
    match app_state.react_trace_mode {
        ReactTraceMode::Summary => push_str(&mut trace, "summary"),
    }
    let mut lines: Vec<String> = Vec::new();
    lines.push("Current system settings:".to_owned());
    lines.push(react);
    lines.push(max);
    lines.push(trace);
    proof {
        reveal_strlit("  trace: ");
        reveal_strlit("summary");
        reveal_strlit("  trace: summary");
        assert(trace@ =~= "  trace: summary"@);
        assert(decimal(app_state.react_max_iterations as int) == crate::text::decimal_digits(app_state.react_max_iterations as nat));
    }
    assert(lines@.map_values(|s: String| s@) =~= settings_lines(*app_state));
    lines
}

/// What the user typed, trimmed, or `None` for `/quit`.
pub fn user_input(line: &str) -> (r: Option<String>)
    ensures
        trimmed(line@) == "/quit"@ ==> r is None,
        trimmed(line@) != "/quit"@ ==> (r matches Some(s) && s@ == trimmed(line@)),
{
    let t = trim_chars(&chars_of(line));
    if same(&t, &chars_of("/quit")) {
        None
    } else {
        Some(string_of(&t))
    }
}

/// What came of the model chosen by number.
#[derive(Debug, Clone, Copy, PartialEq, Eq, Structural)]
pub enum ModelSelection {
    /// The answer is no number.
    InvalidInput,
    /// The number names no model.
    InvalidSelection,
    /// The model is set; `supports_effort` tells whether a reasoning effort may follow.
    Selected { supports_effort: bool },
}

/// `model` is among those that accept a reasoning effort.
pub open spec fn supports_effort(config: Config, model: Seq<char>) -> bool {
    exists|i: int| 0 <= i < config.reaoning_effor_support_models@.len() && #[trigger] config.reaoning_effor_support_models@[i]@ == model
}

/// Sets the model the user chose by its number (counting from 1) in `config.models`,
/// given the line the user typed; a model without reasoning effort drops any effort set
/// before.
pub fn select_model(config: &Config, app_state: &mut AppState, model: &mut String, line: &str) -> (r: ModelSelection)
    ensures
        match parsed_usize(trimmed(line@)) {
            None => r == ModelSelection::InvalidInput && *final(app_state) == *old(app_state) && *final(model) == *old(model),
            Some(n) => if 1 <= n <= config.models@.len() {
                let chosen = config.models@[n - 1]@;
                &&& r == (ModelSelection::Selected { supports_effort: supports_effort(*config, chosen) })
                &&& final(app_state).model@ == chosen
                &&& final(model)@ == chosen
                &&& final(app_state).reasoning_effort == if supports_effort(*config, chosen) {
                    old(app_state).reasoning_effort
                } else {
                    None
                }
                &&& final(app_state).react_enabled == old(app_state).react_enabled
                &&& final(app_state).react_max_iterations == old(app_state).react_max_iterations
                &&& final(app_state).react_trace_mode == old(app_state).react_trace_mode
            } else {
                r == ModelSelection::InvalidSelection && *final(app_state) == *old(app_state) && *final(model) == *old(model)
            },
        },
{
    let t = trim_chars(&chars_of(line));
    match parse_usize(&t) {
        None => ModelSelection::InvalidInput,
        Some(n) => {
            if n > 0 && n <= config.models.len() {
                app_state.model = config.models[n - 1].clone();
                *model = app_state.model.clone();
                let mut supported = false;
                let mut i: usize = 0;
                let chosen = chars_of(model.as_str());
                while i < config.reaoning_effor_support_models.len()
                    invariant
                        0 <= i <= config.reaoning_effor_support_models@.len(),
                        chosen@ == config.models@[n - 1]@,
                        supported == exists|j: int| 0 <= j < i && #[trigger] config.reaoning_effor_support_models@[j]@ == chosen@,
                    decreases config.reaoning_effor_support_models@.len() - i,
                {
                    let candidate = chars_of(config.reaoning_effor_support_models[i].as_str());
                    if same(&candidate, &chosen) {
                        supported = true;
                    }
                    i = i + 1;
                }
                if !supported {
                    app_state.reasoning_effort = None;
                }
                ModelSelection::Selected { supports_effort: supported }
            } else {
                ModelSelection::InvalidSelection
            }
        },
    }
}

/// The reasoning effort a typed line names: `low`, `medium` or `high` in any case once
/// trimmed. (Unicode lower-casing turns no character but an ASCII letter and the Kelvin
/// sign into an ASCII letter, and no level contains a `k`, so comparing up to ASCII case
/// decides as lower-casing the line would.)
pub open spec fn effort_level(line: Seq<char>) -> Option<Seq<char>> {
    let t = trimmed(line);
    if eq_ignore_ascii_case(t, "low"@) {
        Some("low"@)
    } else if eq_ignore_ascii_case(t, "medium"@) {
        Some("medium"@)
    } else if eq_ignore_ascii_case(t, "high"@) {
        Some("high"@)
    } else {
        None
    }
}

/// Sets the reasoning effort the user typed, or none for anything but a level (see
/// [`effort_level`]); tells whether a level was set.
pub fn select_reasoning_effort(app_state: &mut AppState, line: &str) -> (r: bool)
    ensures
        r == effort_level(line@) is Some,
        match effort_level(line@) {
            Some(level) => (final(app_state).reasoning_effort matches Some(e) && e@ == level),
            None => final(app_state).reasoning_effort is None,
        },
        final(app_state).model == old(app_state).model,
        final(app_state).react_enabled == old(app_state).react_enabled,
        final(app_state).react_max_iterations == old(app_state).react_max_iterations,
        final(app_state).react_trace_mode == old(app_state).react_trace_mode,
{
    let t = trim_chars(&chars_of(line));
    if chars_eq_ignore_ascii_case(&t, &chars_of("low")) {
        app_state.reasoning_effort = Some("low".to_owned());
        true
    } else if chars_eq_ignore_ascii_case(&t, &chars_of("medium")) {
        app_state.reasoning_effort = Some("medium".to_owned());
        true
    } else if chars_eq_ignore_ascii_case(&t, &chars_of("high")) {
        app_state.reasoning_effort = Some("high".to_owned());
        true
    } else {
        app_state.reasoning_effort = None;
        false
    }
}

/// The lines of the command help.
pub fn help_lines() -> (lines: Vec<String>)
    ensures
        lines@.map_values(|s: String| s@) == seq![
            "Available commands:"@,
            "  /help: show all available commands"@,
            "  /model: list models and choose a new one"@,
            "  /tools: show available tools and their arguments"@,
            "  /system: show current ReAct settings"@,
            "  /system react on|off: enable or disable ReAct mode"@,
            "  /system max_iterations <n>: set the maximum ReAct loop iterations"@,
            "  /system trace summary: keep concise visible phase summaries enabled"@,
            "  /quit: quit the app"@,
        ],
{
    let mut lines: Vec<String> = Vec::new();
    lines.push("Available commands:".to_owned());
    lines.push("  /help: show all available commands".to_owned());
    lines.push("  /model: list models and choose a new one".to_owned());
    lines.push("  /tools: show available tools and their arguments".to_owned());
    lines.push("  /system: show current ReAct settings".to_owned());
    lines.push("  /system react on|off: enable or disable ReAct mode".to_owned());
    lines.push("  /system max_iterations <n>: set the maximum ReAct loop iterations".to_owned());
    lines.push("  /system trace summary: keep concise visible phase summaries enabled".to_owned());
    lines.push("  /quit: quit the app".to_owned());
    assert(lines@.map_values(|s: String| s@) =~= seq![
        "Available commands:"@,
        "  /help: show all available commands"@,
        "  /model: list models and choose a new one"@,
        "  /tools: show available tools and their arguments"@,
        "  /system: show current ReAct settings"@,
        "  /system react on|off: enable or disable ReAct mode"@,
        "  /system max_iterations <n>: set the maximum ReAct loop iterations"@,
        "  /system trace summary: keep concise visible phase summaries enabled"@,
        "  /quit: quit the app"@,
    ]);
    lines
}

} // verus!
