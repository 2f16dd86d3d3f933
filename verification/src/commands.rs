//! The high-level Git operations that the UI dispatches, with their safety
//! classification and one-line descriptions.

use vstd::prelude::*;

use crate::text::{copy_str, push_decimal, push_str_chars, decimal, chars_of, push_chars};

verus! {

broadcast use vstd::string::group_string_axioms;

/// High-level Git operations that the UI can dispatch.
#[derive(Clone, Debug)]
pub enum GitCommand {
    Refresh,
    Stage { index: usize },
    Unstage { index: usize },
    StageAll,
    UnstageAll,
    Commit { message: String },
    Fetch { remote: Option<String> },
    Pull { remote: Option<String>, branch: Option<String> },
    Push { remote: Option<String>, branch: Option<String> },
    Discard,
}

/// Classifies how risky a command is.
#[derive(Clone, Copy, Debug, PartialEq, Eq, Structural)]
pub enum SafetyTier {
    /// Read-only: refresh, inspect.
    Safe,
    /// Modifies the index or working tree: stage, unstage, commit.
    Guarded,
    /// Hard to undo: discard, reset, force push.
    Dangerous,
}

/// The safety tier of a command: refresh and fetch are safe, discarding is
/// dangerous, everything else is guarded.
pub open spec fn spec_safety_tier(c: GitCommand) -> SafetyTier {
    match c {
        GitCommand::Refresh | GitCommand::Fetch { .. } => SafetyTier::Safe,
        GitCommand::Discard => SafetyTier::Dangerous,
        _ => SafetyTier::Guarded,
    }
}

/// `prefix` followed by `r/b` when both are present.
pub open spec fn remote_branch_text(prefix: Seq<char>, remote: Option<String>, branch: Option<String>) -> Seq<char> {
    match (remote, branch) {
        (Some(r), Some(b)) => prefix + " "@ + r@ + "/"@ + b@,
        _ => prefix,
    }
}

/// The description of a command: its action, with the file index, the
/// remote and branch, or the commit message in quotes (cut after 48
/// characters with `...`).
pub open spec fn spec_command_description(c: GitCommand) -> Seq<char> {
    match c {
        GitCommand::Refresh => "refresh status"@,
        GitCommand::Stage { index } => "stage file at index "@ + decimal(index as nat),
        GitCommand::Unstage { index } => "unstage file at index "@ + decimal(index as nat),
        GitCommand::StageAll => "stage all files"@,
        GitCommand::UnstageAll => "unstage all files"@,
        GitCommand::Commit { message } => if message@.len() > 48 {
            "commit: \""@ + message@.take(48) + "...\""@
        } else {
            "commit: \""@ + message@ + "\""@
        },
        GitCommand::Fetch { remote } => match remote {
            Some(r) => "fetch "@ + r@,
            None => "fetch"@,
        },
        GitCommand::Pull { remote, branch } => remote_branch_text("pull"@, remote, branch),
        GitCommand::Push { remote, branch } => remote_branch_text("push"@, remote, branch),
        GitCommand::Discard => "discard selected changes"@,
    }
}

/// `prefix` followed by `r/b` when both are present.
fn remote_branch(prefix: &str, remote: &Option<String>, branch: &Option<String>) -> (s: String)
    ensures
        s@ == remote_branch_text(prefix@, *remote, *branch),
{
    let mut s = copy_str(prefix);
    match (remote, branch) {
        (Some(r), Some(b)) => {
            push_str_chars(&mut s, " ");
            push_str_chars(&mut s, r.as_str());
            push_str_chars(&mut s, "/");
            push_str_chars(&mut s, b.as_str());
        },
        _ => {},
    }
    s
}

impl GitCommand {
    /// Returns the safety classification for this command.
    pub fn safety_tier(&self) -> (t: SafetyTier)
        ensures
            t == spec_safety_tier(*self),
    {
        match self {
            GitCommand::Refresh => SafetyTier::Safe,
            GitCommand::Fetch { .. } => SafetyTier::Safe,
            GitCommand::Stage { .. } | GitCommand::Unstage { .. } | GitCommand::StageAll
            | GitCommand::UnstageAll | GitCommand::Commit { .. } | GitCommand::Pull { .. }
            | GitCommand::Push { .. } => SafetyTier::Guarded,
            GitCommand::Discard => SafetyTier::Dangerous,
        }
    }

    /// A short human-readable description of the command.
    pub fn description(&self) -> (d: String)
        ensures
            d@ == spec_command_description(*self),
    {
        match self {
            GitCommand::Refresh => copy_str("refresh status"),
            GitCommand::Stage { index } => {
                let mut d = copy_str("stage file at index ");
                push_decimal(&mut d, *index as u64);
                d
            },
            GitCommand::Unstage { index } => {
                let mut d = copy_str("unstage file at index ");
                push_decimal(&mut d, *index as u64);
                d
            },
            GitCommand::StageAll => copy_str("stage all files"),
            GitCommand::UnstageAll => copy_str("unstage all files"),
            GitCommand::Commit { message } => {
                let v = chars_of(message.as_str());
                let mut d = copy_str("commit: \"");
                if v.len() > 48 {
                    push_chars(&mut d, &v, 0, 48);
                    push_str_chars(&mut d, "...\"");
                    assert(v@.subrange(0, 48) =~= message@.take(48));
                } else {
                    push_chars(&mut d, &v, 0, v.len());
                    push_str_chars(&mut d, "\"");
                    assert(v@.subrange(0, v@.len() as int) =~= message@);
                }
                d
            },
            GitCommand::Fetch { remote } => match remote {
                Some(r) => {
                    let mut d = copy_str("fetch ");
                    push_str_chars(&mut d, r.as_str());
                    d
                },
                None => copy_str("fetch"),
            },
            GitCommand::Pull { remote, branch } => remote_branch("pull", remote, branch),
            GitCommand::Push { remote, branch } => remote_branch("push", remote, branch),
            GitCommand::Discard => copy_str("discard selected changes"),
        }
    }
}

/// The outcome of executing a [`GitCommand`].
pub struct CommandResult {
    /// Human-readable description of the command that was run.
    pub command: String,
    /// Whether the command completed successfully.
    pub success: bool,
    /// A success or error message.
    pub message: String,
}

impl CommandResult {
    /// The result of running the command described by `command`: success
    /// with the message `ok`, or failure with the error's message.
    pub fn from_outcome(command: String, outcome: Result<(), String>) -> (r: Self)
        ensures
            r.command == command,
            r.success == outcome is Ok,
            outcome is Ok ==> r.message@ == "ok"@,
            outcome is Err ==> r.message == outcome->Err_0,
    {
        match outcome {
            Ok(()) => CommandResult { command, success: true, message: copy_str("ok") },
            Err(err) => CommandResult { command, success: false, message: err },
        }
    }
}

/// One piece of work that carrying out a command takes, in order.
#[derive(Clone, Debug)]
pub enum Step {
    /// Read the repository state again.
    Refresh,
    /// Select the changed file at this index.
    Select(usize),
    /// Stage the selected file.
    StageSelected,
    /// Unstage the selected file.
    UnstageSelected,
    /// Stage every change.
    StageAll,
    /// Unstage every change.
    UnstageAll,
    /// Commit with this message.
    Commit(String),
    /// Fetch from the remote, if one is named.
    Fetch(Option<String>),
    /// Pull (without rebasing) from the remote and branch, if named.
    Pull(Option<String>, Option<String>),
    /// Push (without setting an upstream) to the remote and branch, if named.
    Push(Option<String>, Option<String>),
    /// Discard the changes of the selected file.
    DiscardSelected,
}

/// The plain value of an optional string.
pub open spec fn opt_chars(o: Option<String>) -> Option<Seq<char>> {
    match o {
        Some(s) => Some(s@),
        None => None,
    }
}

/// A copy of an optional string.
fn copy_opt(o: &Option<String>) -> (r: Option<String>)
    ensures
        opt_chars(r) == opt_chars(*o),
{
    match o {
        Some(s) => Some(copy_str(s.as_str())),
        None => None,
    }
}

impl GitCommand {
    /// The steps that carry out the command: staging or unstaging a file
    /// first selects it; every other command is one step of its own kind.
    pub fn steps(&self) -> (r: Vec<Step>)
        ensures
            match *self {
                GitCommand::Refresh => r@.len() == 1 && r@[0] is Refresh,
                GitCommand::Stage { index } => r@.len() == 2 && r@[0] == Step::Select(index)
                    && r@[1] is StageSelected,
                GitCommand::Unstage { index } => r@.len() == 2 && r@[0] == Step::Select(index)
                    && r@[1] is UnstageSelected,
                GitCommand::StageAll => r@.len() == 1 && r@[0] is StageAll,
                GitCommand::UnstageAll => r@.len() == 1 && r@[0] is UnstageAll,
                GitCommand::Commit { message } => r@.len() == 1 && (r@[0] matches Step::Commit(m)
                    && m@ == message@),
                GitCommand::Fetch { remote } => r@.len() == 1 && (r@[0] matches Step::Fetch(x)
                    && opt_chars(x) == opt_chars(remote)),
                GitCommand::Pull { remote, branch } => r@.len() == 1 && (r@[0] matches Step::Pull(
                    x,
                    y,
                ) && opt_chars(x) == opt_chars(remote) && opt_chars(y) == opt_chars(branch)),
                GitCommand::Push { remote, branch } => r@.len() == 1 && (r@[0] matches Step::Push(
                    x,
                    y,
                ) && opt_chars(x) == opt_chars(remote) && opt_chars(y) == opt_chars(branch)),
                GitCommand::Discard => r@.len() == 1 && r@[0] is DiscardSelected,
            },
    {
        let mut r: Vec<Step> = Vec::new();
        match self {
            GitCommand::Refresh => r.push(Step::Refresh),
            GitCommand::Stage { index } => {
                r.push(Step::Select(*index));
                r.push(Step::StageSelected);
            },
            GitCommand::Unstage { index } => {
                r.push(Step::Select(*index));
                r.push(Step::UnstageSelected);
            },
            GitCommand::StageAll => r.push(Step::StageAll),
            GitCommand::UnstageAll => r.push(Step::UnstageAll),
            GitCommand::Commit { message } => r.push(Step::Commit(copy_str(message.as_str()))),
            GitCommand::Fetch { remote } => r.push(Step::Fetch(copy_opt(remote))),
            GitCommand::Pull { remote, branch } => r.push(Step::Pull(copy_opt(remote), copy_opt(branch))),
            GitCommand::Push { remote, branch } => r.push(Step::Push(copy_opt(remote), copy_opt(branch))),
            GitCommand::Discard => r.push(Step::DiscardSelected),
        }
        r
    }
}

} // verus!
