use vstd::prelude::*;

verus! {

/// The number of ReAct iterations a turn may take unless the user sets another.
pub const DEFAULT_REACT_MAX_ITERATIONS: usize = 5;

/// The chatbot's configuration: the models on offer, and those of them that accept a
/// reasoning effort.
pub struct Config {
    pub models: Vec<String>,
    pub reaoning_effor_support_models: Vec<String>,
}

/// How much of the ReAct loop is shown to the user.
#[derive(Debug, Clone, Copy, PartialEq, Eq, Structural)]
pub enum ReactTraceMode {
    /// A short line for each phase of each iteration.
    Summary,
}

impl Default for ReactTraceMode {
    fn default() -> (mode: Self)
        ensures
            mode == ReactTraceMode::Summary,
    {
        ReactTraceMode::Summary
    }
}

/// The settings that persist from one session to the next.
pub struct AppState {
    pub model: String,
    pub reasoning_effort: Option<String>,
    pub react_enabled: bool,
    pub react_max_iterations: usize,
    pub react_trace_mode: ReactTraceMode,
}

impl AppState {
    /// The settings of a first session: the first configured model, no reasoning effort,
    /// and ReAct on with its default bound and summary trace.
    pub fn default(config: &Config) -> (state: AppState)
        requires
            config.models.len() > 0,
        ensures
            state.model@ == config.models@[0]@,
            state.reasoning_effort is None,
            state.react_enabled,
            state.react_max_iterations == DEFAULT_REACT_MAX_ITERATIONS,
            state.react_trace_mode == ReactTraceMode::Summary,
    {
        AppState {
            model: config.models[0].clone(),
            reasoning_effort: None,
            react_enabled: default_react_enabled(),
            react_max_iterations: default_react_max_iterations(),
            react_trace_mode: ReactTraceMode::Summary,
        }
    }
}

/// ReAct is on unless saved settings turn it off.
pub fn default_react_enabled() -> (enabled: bool)
    ensures
        enabled,
{
    true
}

/// The iteration bound used when saved settings name none.
pub fn default_react_max_iterations() -> (n: usize)
    ensures
        n == DEFAULT_REACT_MAX_ITERATIONS,
{
    DEFAULT_REACT_MAX_ITERATIONS
}

/// The settings a session starts with: those saved earlier when they could be read,
/// otherwise the defaults of [`AppState::default`].
pub fn loaded_or_default(saved: Option<AppState>, config: &Config) -> (state: AppState)
    requires
        saved is None ==> config.models.len() > 0,
    ensures
        saved is Some ==> state == saved->0,
        saved is None ==> state.model@ == config.models@[0]@ && state.reasoning_effort is None
            && state.react_enabled && state.react_max_iterations == DEFAULT_REACT_MAX_ITERATIONS
            && state.react_trace_mode == ReactTraceMode::Summary,
{
    match saved {
        Some(state) => state,
        None => AppState::default(config),
    }
}

} // verus!
