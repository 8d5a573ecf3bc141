//! Session types that are not fully covered.

use vstd::prelude::*;
use vstd::string::*;

verus! {

/// What is wrong with a session.
#[derive(Debug, Clone, Copy, PartialEq, Eq, Structural)]
pub enum SessionProblem {
    /// A Wayland session with XWayland: copies from native clients may not be
    /// seen.
    XWaylandOnly,
    /// A Wayland session without an X server to watch.
    NoDisplay,
}

/// Tells what is wrong with a session of this type.
///
/// Silently capturing nothing is the worst possible failure mode for a
/// clipboard manager, so the daemon is loud about it at startup.
pub fn check_session(session_type: &str, has_display: bool) -> (problem: Option<SessionProblem>)
    ensures
        problem == (if session_type@ != "wayland"@ {
            None
        } else if has_display {
            Some(SessionProblem::XWaylandOnly)
        } else {
            Some(SessionProblem::NoDisplay)
        }),
{
    if session_type.to_owned() == "wayland".to_owned() {
        if has_display {
            Some(SessionProblem::XWaylandOnly)
        } else {
            Some(SessionProblem::NoDisplay)
        }
    } else {
        None
    }
}

/// The log level that the daemon's `-v` flags ask for.
pub fn log_level(verbose: u8) -> (level: &'static str)
    ensures
        level@ == (if verbose == 0 {
            "info"@
        } else if verbose == 1 {
            "debug"@
        } else {
            "trace"@
        }),
{
    match verbose {
        0 => "info",
        1 => "debug",
        _ => "trace",
    }
}

} // verus!
