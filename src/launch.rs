use vstd::prelude::*;

verus! {

/// How a launch ended.
pub enum LaunchOutcome {
    /// The activation service started the application and named its process.
    FullySupervisable(u32),
    /// The shell fallback started the application; no process identifier is known.
    LaunchedUnsupervisable,
    /// Both mechanisms failed: the activation failure, then the shell failure.
    Failed(String, String),
}

/// What the launcher does after the primary activation.
pub enum LaunchStep {
    /// The launch is over.
    Done(LaunchOutcome),
    /// The activation failed with this message; the shell fallback is next.
    TryFallback(String),
}

/// Decides what follows the primary activation: a known process ends the
/// launch, a failure is held back while the shell fallback is tried.
pub fn after_activation(primary: Result<u32, String>) -> (r: LaunchStep)
    ensures
        match primary {
            Ok(pid) => r == LaunchStep::Done(LaunchOutcome::FullySupervisable(pid)),
            Err(e) => r == LaunchStep::TryFallback(e),
        },
{
    match primary {
        Ok(pid) => LaunchStep::Done(LaunchOutcome::FullySupervisable(pid)),
        Err(e) => LaunchStep::TryFallback(e),
    }
}

/// Ends a launch whose activation failed with `activation_error`, by the
/// outcome of the shell fallback.
pub fn after_fallback(activation_error: String, fallback: Result<(), String>) -> (r: LaunchOutcome)
    ensures
        match fallback {
            Ok(()) => r == LaunchOutcome::LaunchedUnsupervisable,
            Err(e) => r == LaunchOutcome::Failed(activation_error, e),
        },
{
    match fallback {
        Ok(()) => LaunchOutcome::LaunchedUnsupervisable,
        Err(e) => LaunchOutcome::Failed(activation_error, e),
    }
}

} // verus!
