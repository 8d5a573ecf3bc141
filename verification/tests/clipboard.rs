use clipster::clipboard::{settle, Attempt, CopyStep, Copying, Look, Settled, Tool};
use clipster::session::{check_session, log_level, SessionProblem};

fn tried(step: CopyStep) -> Tool {
    match step {
        CopyStep::Try(tool) => tool,
        _ => panic!("no tool is tried"),
    }
}

fn failure(step: CopyStep) -> String {
    match step {
        CopyStep::Fail(why) => why,
        _ => panic!("copying did not fail"),
    }
}

#[test]
fn every_tool_is_tried_in_turn() {
    let (mut copying, step) = Copying::begin();
    assert_eq!(tried(step), Tool::Xclip);
    assert_eq!(tried(copying.step(Attempt::NotInstalled)), Tool::Xsel);
    assert_eq!(tried(copying.step(Attempt::NotInstalled)), Tool::WlCopy);
    assert_eq!(
        failure(copying.step(Attempt::NotInstalled)),
        "no clipboard tool found; install one of xclip, xsel or wl-clipboard"
    );
}

#[test]
fn the_last_failure_is_reported() {
    let (mut copying, _) = Copying::begin();
    copying.step(Attempt::Failed("exit status: 1".to_string()));
    copying.step(Attempt::Failed("exit status: 2".to_string()));
    assert_eq!(
        failure(copying.step(Attempt::NotInstalled)),
        "no clipboard tool succeeded (xsel exited with exit status: 2)"
    );
}

#[test]
fn the_tool_that_took_the_content_is_named() {
    let (mut copying, _) = Copying::begin();
    copying.step(Attempt::NotInstalled);
    match copying.step(Attempt::Took) {
        CopyStep::Done(tool) => assert_eq!(tool.name(), "xsel"),
        _ => panic!("copying is not done"),
    }
}

#[test]
fn other_failures_end_copying() {
    let (mut copying, _) = Copying::begin();
    let why = failure(copying.step(Attempt::NotStarted("out of memory".to_string())));
    assert_eq!(why, "spawning xclip: out of memory");
    let (mut copying, _) = Copying::begin();
    let why = failure(copying.step(Attempt::NotWritten("broken pipe".to_string())));
    assert_eq!(why, "writing to xclip: broken pipe");
}

#[test]
fn tools_are_called_for_the_clipboard() {
    assert_eq!((Tool::Xclip.name(), Tool::Xclip.args()), ("xclip", vec!["-selection", "clipboard"]));
    assert_eq!((Tool::Xsel.name(), Tool::Xsel.args()), ("xsel", vec!["--clipboard", "--input"]));
    assert_eq!((Tool::WlCopy.name(), Tool::WlCopy.args()), ("wl-copy", vec![]));
}

#[test]
fn a_tool_fails_only_within_its_grace() {
    assert_eq!(settle(false, Look::Running), Settled::NotYet);
    assert_eq!(settle(false, Look::Succeeded), Settled::Fine);
    assert_eq!(settle(false, Look::Failed), Settled::Failed);
    assert_eq!(settle(false, Look::Unknown), Settled::Fine);
    assert_eq!(settle(true, Look::Failed), Settled::Fine);
}

#[test]
fn wayland_sessions_are_warned_about() {
    assert_eq!(check_session("x11", true), None);
    assert_eq!(check_session("", false), None);
    assert_eq!(check_session("wayland", true), Some(SessionProblem::XWaylandOnly));
    assert_eq!(check_session("wayland", false), Some(SessionProblem::NoDisplay));
}

#[test]
fn verbosity_raises_the_log_level() {
    assert_eq!((log_level(0), log_level(1)), ("info", "debug"));
    assert_eq!((log_level(2), log_level(255)), ("trace", "trace"));
}
