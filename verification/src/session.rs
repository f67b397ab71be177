//! What is mirrored of agent sessions and worktrees.
use crate::outside::Failure;
use crate::paths;
use crate::text;
use crate::transcript;
use crate::transcript::{MessageModel, Role, TaskId, ToolCall, UnifiedMessage};
use vstd::prelude::*;
use vstd::string::*;

verus! {

/// State of the connection to the agent server.
#[derive(Debug, Clone, Copy, PartialEq, Eq, Structural)]
pub enum ConnState {
    Connecting,
    Connected,
    Disconnected,
}

impl Default for ConnState {
    fn default() -> (c: ConnState)
        ensures
            c == ConnState::Connecting,
    {
        ConnState::Connecting
    }
}

/// A session of an agent.
#[derive(Debug, Clone, PartialEq, Eq)]
pub struct Session {
    pub title: String,
    /// When it last changed.
    pub updated: u64,
}

/// What a session is doing.
#[derive(Debug, Clone, PartialEq, Eq)]
pub enum SessionStatus {
    Idle,
    Busy,
    /// Waits to try again: how often it tried, and what the server said.
    Retry { attempt: u64, message: String },
}

impl SessionStatus {
    /// The session has work to do.
    pub open spec fn working(self) -> bool {
        self is Busy || self is Retry
    }

    /// Whether the session has work to do.
    pub fn is_working(&self) -> (r: bool)
        ensures
            r == self.working(),
    {
        matches!(self, SessionStatus::Busy | SessionStatus::Retry { .. })
    }
}

/// Tokens and money of one message. Each is a double, by its bits: it is
/// carried here, not computed with.
#[derive(Debug, Clone, Copy, PartialEq, Eq)]
pub struct Usage {
    pub input: u64,
    pub output: u64,
    pub cache: u64,
    pub cost: u64,
}

/// The bits of a double without its sign.
pub open spec fn magnitude(bits: u64) -> u64 {
    bits % 0x8000_0000_0000_0000
}

/// The bits are those of a value that equals nothing, itself included.
pub open spec fn is_nan(bits: u64) -> bool {
    magnitude(bits) > 0x7ff0_0000_0000_0000
}

/// Two doubles are equal: the same bits, or the two zeros, but never where
/// one of them is no number.
pub open spec fn doubles_equal(a: u64, b: u64) -> bool {
    !is_nan(a) && !is_nan(b) && (a == b || (magnitude(a) == 0 && magnitude(b) == 0))
}

/// Whether two doubles are equal, by their bits.
pub fn same_double(a: u64, b: u64) -> (r: bool)
    ensures
        r == doubles_equal(a, b),
{
    let x: u64 = a % 0x8000_0000_0000_0000;
    let y: u64 = b % 0x8000_0000_0000_0000;
    x <= 0x7ff0_0000_0000_0000 && y <= 0x7ff0_0000_0000_0000 && (a == b || (x == 0 && y == 0))
}

impl Usage {
    /// All four doubles are equal.
    pub open spec fn equals(self, other: Usage) -> bool {
        &&& doubles_equal(self.input, other.input)
        &&& doubles_equal(self.output, other.output)
        &&& doubles_equal(self.cache, other.cache)
        &&& doubles_equal(self.cost, other.cost)
    }

    /// Whether all four doubles are equal.
    pub fn same(&self, other: &Usage) -> (r: bool)
        ensures
            r == self.equals(*other),
    {
        same_double(self.input, other.input) && same_double(self.output, other.output)
            && same_double(self.cache, other.cache) && same_double(self.cost, other.cost)
    }
}

/// One line that a message contributes to a transcript.
#[derive(Debug, Clone, PartialEq, Eq)]
pub struct EntryLine {
    pub id: String,
    pub role: Role,
    pub text: String,
    pub tool: Option<ToolCall>,
    pub ts: u64,
}

impl EntryLine {
    /// The line as a message of a task.
    pub open spec fn stamped(self, task: TaskId) -> MessageModel {
        MessageModel {
            id: self.id@,
            task,
            role: self.role,
            text: self.text@,
            tool: transcript::tool_name(self.tool),
            ts: self.ts,
        }
    }

    /// The line as a message of a task.
    pub fn stamp(&self, task: TaskId) -> (m: UnifiedMessage)
        ensures
            m@ == self.stamped(task),
    {
        let tool = match &self.tool {
            Some(t) => Some(ToolCall { name: t.name.clone() }),
            None => None,
        };
        UnifiedMessage {
            id: self.id.clone(),
            task,
            role: self.role,
            text: self.text.clone(),
            tool,
            ts: self.ts,
        }
    }
}

/// A message of a session.
#[derive(Debug, Clone, PartialEq, Eq)]
pub struct MessageEntry {
    pub id: String,
    /// What it contributes to the transcript.
    pub lines: Vec<EntryLine>,
    /// What it cost; only an agent's message costs anything.
    pub usage: Option<Usage>,
}

/// A decision that an agent waits for.
#[derive(Debug, Clone, PartialEq, Eq)]
pub struct PendingPermission {
    pub permission_id: String,
    pub session_id: String,
    pub kind: String,
    pub patterns: Vec<String>,
    /// The command that is asked for, where it is one.
    pub command: Option<String>,
}

/// A provider of models.
#[derive(Debug, Clone, PartialEq, Eq)]
pub struct ProviderInfo {
    pub provider_id: String,
    pub provider_name: String,
    /// Identity and name of each model.
    pub models: Vec<(String, String)>,
}

/// The model that prompts go to.
#[derive(Debug, Clone, PartialEq, Eq)]
pub struct SelectedModel {
    pub provider_id: String,
    pub id: String,
}

/// An item of an agent's plan.
#[derive(Debug, Clone, PartialEq, Eq)]
pub struct Todo {
    pub content: String,
    pub status: String,
}

/// The changes of one file.
#[derive(Debug, Clone, PartialEq, Eq)]
pub struct FileDiff {
    pub file: Option<String>,
    pub additions: u64,
    pub deletions: u64,
    pub patch: Option<String>,
}

/// State of a worktree on the dashboard.
#[derive(Debug, Clone, Copy, PartialEq, Eq, Structural)]
pub enum WorktreeStatus {
    Creating,
    Working,
    NeedsYou,
    Done,
}

/// A worktree and the session that works in it.
#[derive(Debug, Clone, PartialEq, Eq)]
pub struct WorktreeRecord {
    pub slug: String,
    pub branch: String,
    pub path: String,
    pub status: WorktreeStatus,
    pub session_id: Option<String>,
}

impl WorktreeRecord {
    /// The worktree `slug` in the directory `dir` of a repository. Its name
    /// has to be the name of a directory.
    pub fn new_in(repo: &str, dir: &str, slug: &str) -> (r: Result<WorktreeRecord, Failure>)
        ensures
            match r {
                Ok(w) => {
                    &&& paths::is_name(slug@) && slug@ != seq!['.', '.']
                    &&& w.slug@ == slug@
                    &&& w.branch@ == "ade/"@ + slug@
                    &&& w.path@ == paths::join(paths::join(repo@, dir@), slug@)
                    &&& w.status == WorktreeStatus::Creating
                    &&& w.session_id is None
                },
                Err(e) => !(paths::is_name(slug@) && slug@ != seq!['.', '.']) && e@
                    == "invalid worktree name: "@ + slug@,
            },
    {
        if !paths::plain_name(slug) {
            return Err(Failure::because_of("invalid worktree name: ", slug));
        }
        let mut branch = "ade/".to_owned();
        branch.append(slug);
        let parent = paths::joined(repo, dir);
        Ok(
            WorktreeRecord {
                slug: slug.to_owned(),
                branch,
                path: paths::joined(parent.as_str(), slug),
                status: WorktreeStatus::Creating,
                session_id: None,
            },
        )
    }

    /// The worktree `slug` of a repository, in its `.ade-worktrees`.
    pub fn new(repo: &str, slug: &str) -> (r: Result<WorktreeRecord, Failure>)
        ensures
            match r {
                Ok(w) => {
                    &&& paths::is_name(slug@) && slug@ != seq!['.', '.']
                    &&& w.slug@ == slug@
                    &&& w.branch@ == "ade/"@ + slug@
                    &&& w.path@ == paths::join(paths::join(repo@, ".ade-worktrees"@), slug@)
                    &&& w.status == WorktreeStatus::Creating
                    &&& w.session_id is None
                },
                Err(e) => !(paths::is_name(slug@) && slug@ != seq!['.', '.']) && e@
                    == "invalid worktree name: "@ + slug@,
            },
    {
        WorktreeRecord::new_in(repo, ".ade-worktrees", slug)
    }
}

/// Equal doubles are equal either way round, a double that is no number equals
/// nothing, plus and minus zero are equal, and any other two only where their
/// bits are.
pub proof fn doubles_equal_by_value(a: u64, b: u64)
    ensures
        doubles_equal(a, b) == doubles_equal(b, a),
        a <= 0x7ff0_0000_0000_0000 ==> doubles_equal(a, a),
        0x7ff0_0000_0000_0000 < a < 0x8000_0000_0000_0000 ==> !doubles_equal(a, b),
        a > 0xfff0_0000_0000_0000 ==> !doubles_equal(a, b),
        doubles_equal(0, 0x8000_0000_0000_0000),
        a != b && a != 0 && a != 0x8000_0000_0000_0000 ==> !doubles_equal(a, b),
{
}

/// What was used is the same only where each of the four amounts is.
pub proof fn usages_equal_by_all_amounts(a: Usage, b: Usage)
    ensures
        a.equals(b) == b.equals(a),
        a.equals(b) <==> doubles_equal(a.input, b.input) && doubles_equal(a.output, b.output)
            && doubles_equal(a.cache, b.cache) && doubles_equal(a.cost, b.cost),
{
}

} // verus!
