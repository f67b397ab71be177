//! Task identities and the messages of a task, whichever agent runs it.
use crate::sorted_map::{SortKey, SortedMap};
use crate::text;
use crate::text::Rank;
use std::hash::{BuildHasher, DefaultHasher, Hasher, RandomState};
use vstd::prelude::*;
use vstd::string::*;

verus! {

/// `RandomState::new` draws fresh random keys; nothing is claimed of them.
pub assume_specification[ RandomState::new ]() -> RandomState;

/// `build_hasher` of `RandomState` makes a hasher with its keys; nothing is
/// claimed of what it will compute.
pub assume_specification[ <RandomState as BuildHasher>::build_hasher ](
    s: &RandomState,
) -> DefaultHasher;

/// Identity of a task.
#[derive(Clone, Copy, Debug, PartialEq, Eq, PartialOrd, Ord, Hash, Structural)]
pub struct TaskId(pub u64);

impl TaskId {
    /// A random identity. Two draws differ but for chance, so nothing is
    /// known of the value.
    pub fn new() -> TaskId {
        TaskId(RandomState::new().build_hasher().finish())
    }

    /// The identity as text: its number in decimal.
    pub fn to_text(&self) -> (s: String)
        ensures
            s@ == text::dec(self.0 as nat),
    {
        text::decimal(self.0)
    }
}

impl SortKey for TaskId {
    type Model = TaskId;

    type Probe = TaskId;

    open spec fn model(&self) -> TaskId {
        *self
    }

    open spec fn probe_model(p: &TaskId) -> TaskId {
        *p
    }

    open spec fn below(a: TaskId, b: TaskId) -> bool {
        a.0 < b.0
    }

    proof fn below_irreflexive(a: TaskId) {
    }

    proof fn below_transitive(a: TaskId, b: TaskId, c: TaskId) {
    }

    fn probe(&self) -> (p: &TaskId) {
        self
    }

    fn rank(&self, p: &TaskId) -> (r: Rank) {
        if self.0 < p.0 {
            Rank::Less
        } else if self.0 == p.0 {
            Rank::Equal
        } else {
            Rank::Greater
        }
    }
}

/// A map from task identities.
pub type TaskMap<V> = SortedMap<TaskId, V>;

/// Who speaks in a message.
#[derive(Clone, Copy, Debug, PartialEq, Eq, Structural)]
pub enum Role {
    User,
    Agent,
    Tool,
}

impl Role {
    /// The role as it is written in summaries.
    pub open spec fn word(self) -> Seq<char> {
        match self {
            Role::User => "user"@,
            Role::Agent => "agent"@,
            Role::Tool => "tool"@,
        }
    }

    /// The role as it is written in summaries.
    pub fn as_word(&self) -> (s: &'static str)
        ensures
            s@ == self.word(),
    {
        match self {
            Role::User => "user",
            Role::Agent => "agent",
            Role::Tool => "tool",
        }
    }
}

/// A call of a tool by an agent.
#[derive(Debug, Clone, PartialEq, Eq)]
pub struct ToolCall {
    pub name: String,
}

/// One message of a task.
#[derive(Debug, Clone, PartialEq, Eq)]
pub struct UnifiedMessage {
    pub id: String,
    pub task: TaskId,
    pub role: Role,
    pub text: String,
    pub tool: Option<ToolCall>,
    pub ts: u64,
}

/// What a [`UnifiedMessage`] holds.
pub struct MessageModel {
    pub id: Seq<char>,
    pub task: TaskId,
    pub role: Role,
    pub text: Seq<char>,
    pub tool: Option<Seq<char>>,
    pub ts: u64,
}

/// The name of a tool call.
pub open spec fn tool_name(t: Option<ToolCall>) -> Option<Seq<char>> {
    match t {
        Some(c) => Some(c.name@),
        None => None,
    }
}

impl View for UnifiedMessage {
    type V = MessageModel;

    open spec fn view(&self) -> MessageModel {
        MessageModel {
            id: self.id@,
            task: self.task,
            role: self.role,
            text: self.text@,
            tool: tool_name(self.tool),
            ts: self.ts,
        }
    }
}

impl UnifiedMessage {
    /// A copy of the message.
    pub fn copy(&self) -> (m: UnifiedMessage)
        ensures
            m@ == self@,
    {
        let tool = match &self.tool {
            Some(t) => Some(ToolCall { name: t.name.clone() }),
            None => None,
        };
        UnifiedMessage {
            id: self.id.clone(),
            task: self.task,
            role: self.role,
            text: self.text.clone(),
            tool,
            ts: self.ts,
        }
    }
}

/// What a list of messages holds.
pub open spec fn messages(v: Seq<UnifiedMessage>) -> Seq<MessageModel> {
    v.map_values(|m: UnifiedMessage| m@)
}

} // verus!
