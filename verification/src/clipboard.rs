//! Handing content back to the system clipboard.
//!
//! Taking ownership of the X selection directly would mean the calling process
//! has to stay alive to serve it. Neither client can promise that: the CLI is
//! one-shot, and the picker exits the moment you press Enter. So an external
//! tool takes the content over; this decides which, and what a failure means.
//!
//! X11 tools come first even on a Wayland session, because capture goes
//! through X11: writing to the Wayland clipboard while watching the X one
//! means the copy lands somewhere the daemon cannot see.

use vstd::prelude::*;
use vstd::string::*;

verus! {

/// How long a tool that was just started has to fail, in milliseconds.
pub const GRACE_MILLIS: u64 = 150;

/// How long to wait between two looks at it, in milliseconds.
pub const STEP_MILLIS: u64 = 10;

/// The tools that can take content over.
#[derive(Debug, Clone, Copy, PartialEq, Eq, Structural)]
pub enum Tool {
    Xclip,
    Xsel,
    WlCopy,
}

impl Tool {
    /// The program's name.
    pub open spec fn spec_name(self) -> Seq<char> {
        match self {
            Tool::Xclip => "xclip"@,
            Tool::Xsel => "xsel"@,
            Tool::WlCopy => "wl-copy"@,
        }
    }

    /// What it is called with.
    pub open spec fn spec_args(self) -> Seq<Seq<char>> {
        match self {
            Tool::Xclip => seq!["-selection"@, "clipboard"@],
            Tool::Xsel => seq!["--clipboard"@, "--input"@],
            Tool::WlCopy => Seq::empty(),
        }
    }

    /// The tool to try next.
    pub open spec fn following(self) -> Option<Tool> {
        match self {
            Tool::Xclip => Some(Tool::Xsel),
            Tool::Xsel => Some(Tool::WlCopy),
            Tool::WlCopy => None,
        }
    }

    /// The program's name.
    pub fn name(self) -> (name: &'static str)
        ensures
            name@ == self.spec_name(),
    {
        match self {
            Tool::Xclip => "xclip",
            Tool::Xsel => "xsel",
            Tool::WlCopy => "wl-copy",
        }
    }

    /// What it is called with.
    pub fn args(self) -> (args: Vec<&'static str>)
        ensures
            args@.map_values(|a: &'static str| a@) == self.spec_args(),
    {
        let mut args: Vec<&'static str> = Vec::new();
        match self {
            Tool::Xclip => {
                args.push("-selection");
                args.push("clipboard");
            },
            Tool::Xsel => {
                args.push("--clipboard");
                args.push("--input");
            },
            Tool::WlCopy => {},
        }
        proof {
            assert(args@.map_values(|a: &'static str| a@) =~= self.spec_args());
        }
        args
    }
}

/// What came of trying a tool.
pub enum Attempt {
    /// It is not installed.
    NotInstalled,
    /// It could not be started; this is why.
    NotStarted(String),
    /// It did not take the content; this is why.
    NotWritten(String),
    /// It took the content, and did not fail.
    Took,
    /// It took the content and then failed, with this status.
    Failed(String),
}

/// What to do next.
pub enum CopyStep {
    /// Try this tool.
    Try(Tool),
    /// This tool took the content.
    Done(Tool),
    /// No tool did; this is why.
    Fail(String),
}

/// Copying, while it tries one tool after the other.
pub struct Copying {
    tool: Tool,
    last_failure: Option<String>,
}

/// `text` is `doing`, the name of a tool, and what went wrong.
pub open spec fn blames(text: Seq<char>, doing: Seq<char>, tool: Tool, why: Seq<char>) -> bool {
    text == doing + tool.spec_name() + ": "@ + why
}

impl Copying {
    /// The tool that is being tried.
    pub closed spec fn trying(self) -> Tool {
        self.tool
    }

    /// How the last tool that failed did so.
    pub closed spec fn failure(self) -> Option<Seq<char>> {
        match self.last_failure {
            Some(reason) => Some(reason@),
            None => None,
        }
    }

    /// `step` goes on with the next tool or, behind the last one, gives up.
    pub open spec fn goes_on(self, tool: Tool, step: CopyStep) -> bool {
        match tool.following() {
            Some(next) => step == CopyStep::Try(next) && self.trying() == next,
            None => step matches CopyStep::Fail(why) && why@ == (match self.failure() {
                Some(reason) => "no clipboard tool succeeded ("@ + reason + ")"@,
                None => "no clipboard tool found; install one of xclip, xsel or wl-clipboard"@,
            }),
        }
    }

    /// Copying begins with the first tool.
    pub fn begin() -> (begun: (Copying, CopyStep))
        ensures
            begun.0.trying() == Tool::Xclip,
            begun.0.failure() is None,
            begun.1 == CopyStep::Try(Tool::Xclip),
    {
        (Copying { tool: Tool::Xclip, last_failure: None }, CopyStep::Try(Tool::Xclip))
    }

    /// `next` and `step` are how copying goes on after an attempt with the tool
    /// that is being tried.
    pub open spec fn goes_to(self, attempt: Attempt, next: Copying, step: CopyStep) -> bool {
        match attempt {
            Attempt::NotInstalled => next.failure() == self.failure() && next.goes_on(
                self.trying(),
                step,
            ),
            Attempt::Failed(status) => next.failure() == Some(
                self.trying().spec_name() + " exited with "@ + status@,
            ) && next.goes_on(self.trying(), step),
            Attempt::Took => step == CopyStep::Done(self.trying()),
            Attempt::NotStarted(why) => step matches CopyStep::Fail(text) && blames(
                text@,
                "spawning "@,
                self.trying(),
                why@,
            ),
            Attempt::NotWritten(why) => step matches CopyStep::Fail(text) && blames(
                text@,
                "writing to "@,
                self.trying(),
                why@,
            ),
        }
    }

    /// Takes what came of trying the tool, and tells what to do next. A tool
    /// that is not installed, or that fails, gives way to the next one; what
    /// else goes wrong is the end.
    pub fn step(&mut self, attempt: Attempt) -> (step: CopyStep)
        ensures
            old(self).goes_to(attempt, *final(self), step),
    {
        match attempt {
            Attempt::NotInstalled => self.next_tool(),
            Attempt::Failed(status) => {
                let mut reason = self.tool.name().to_owned();
                reason.append(" exited with ");
                reason.append(status.as_str());
                self.last_failure = Some(reason);
                self.next_tool()
            },
            Attempt::Took => CopyStep::Done(self.tool),
            Attempt::NotStarted(why) => CopyStep::Fail(blame("spawning ", self.tool, &why)),
            Attempt::NotWritten(why) => CopyStep::Fail(blame("writing to ", self.tool, &why)),
        }
    }

    fn next_tool(&mut self) -> (step: CopyStep)
        ensures
            final(self).failure() == old(self).failure(),
            final(self).goes_on(old(self).trying(), step),
    {
        let next = match self.tool {
            Tool::Xclip => Tool::Xsel,
            Tool::Xsel => Tool::WlCopy,
            Tool::WlCopy => {
                return CopyStep::Fail(
                    match &self.last_failure {
                        Some(reason) => {
                            let mut text = "no clipboard tool succeeded (".to_owned();
                            text.append(reason.as_str());
                            text.append(")");
                            text
                        },
                        None => {
                            "no clipboard tool found; install one of xclip, xsel or wl-clipboard".to_owned()
                        },
                    },
                );
            },
        };
        self.tool = next;
        CopyStep::Try(next)
    }
}

fn blame(doing: &str, tool: Tool, why: &String) -> (text: String)
    ensures
        blames(text@, doing@, tool, why@),
{
    let mut text = doing.to_owned();
    text.append(tool.name());
    text.append(": ");
    text.append(why.as_str());
    text
}

/// What a look at a tool that was just started shows.
#[derive(Debug, Clone, Copy, PartialEq, Eq, Structural)]
pub enum Look {
    /// It is still running.
    Running,
    /// It exited, and reported success.
    Succeeded,
    /// It exited, and reported failure.
    Failed,
    /// It cannot be told.
    Unknown,
}

/// What to make of a tool.
#[derive(Debug, Clone, Copy, PartialEq, Eq, Structural)]
pub enum Settled {
    /// Look again in a moment.
    NotYet,
    /// It serves the selection, or has handed it on.
    Fine,
    /// The content went nowhere.
    Failed,
}

/// Tells what to make of a tool that was just started. These tools fork and
/// keep a child alive to serve the selection, so still running after the grace
/// period counts as success, and so does exiting; exiting with a failure means
/// that the content went nowhere. With the time up there is no look.
pub fn settle(expired: bool, look: Look) -> (settled: Settled)
    ensures
        settled == (if expired {
            Settled::Fine
        } else {
            match look {
                Look::Running => Settled::NotYet,
                Look::Succeeded => Settled::Fine,
                Look::Failed => Settled::Failed,
                Look::Unknown => Settled::Fine,
            }
        }),
{
    if expired {
        return Settled::Fine;
    }
    match look {
        Look::Running => Settled::NotYet,
        Look::Succeeded => Settled::Fine,
        Look::Failed => Settled::Failed,
        Look::Unknown => Settled::Fine,
    }
}

impl Attempt {
    /// The tool gives way to the next one.
    pub open spec fn gives_way(self) -> bool {
        self is NotInstalled || self is Failed
    }
}

/// Every tool is tried once before copying gives up, the X11 ones first: where
/// each gives way, the tools are tried one after the other, and then copying
/// fails. What it says is how the last tool that ran failed, or that there is
/// no tool.
pub proof fn every_tool_is_tried(
    states: Seq<Copying>,
    attempts: Seq<Attempt>,
    steps: Seq<CopyStep>,
)
    requires
        states.len() == 4,
        attempts.len() == 3,
        steps.len() == 4,
        states[0].trying() == Tool::Xclip,
        states[0].failure() is None,
        steps[0] == CopyStep::Try(Tool::Xclip),
        forall|i: int|
            0 <= i < 3 ==> (#[trigger] attempts[i]).gives_way() && states[i].goes_to(
                attempts[i],
                states[i + 1],
                steps[i + 1],
            ),
    ensures
        steps[1] == CopyStep::Try(Tool::Xsel),
        steps[2] == CopyStep::Try(Tool::WlCopy),
        steps[3] is Fail,
        (forall|i: int| 0 <= i < 3 ==> #[trigger] attempts[i] is NotInstalled) ==> steps[3]->Fail_0@
            == "no clipboard tool found; install one of xclip, xsel or wl-clipboard"@,
        attempts[2] matches Attempt::Failed(status) ==> steps[3]->Fail_0@
            == "no clipboard tool succeeded ("@ + (Tool::WlCopy.spec_name() + " exited with "@
            + status@) + ")"@,
{
    assert(attempts[0].gives_way());
    assert(attempts[1].gives_way());
    assert(attempts[2].gives_way());
}

} // verus!
