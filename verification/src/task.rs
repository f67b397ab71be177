//! Units of agent work and their retry budget.
use crate::text;
use crate::transcript;
use crate::transcript::{TaskId, UnifiedMessage};
use vstd::prelude::*;
use vstd::string::*;

verus! {

/// How many errors block a task unless it says otherwise.
pub const DEFAULT_FAILURE_LIMIT: u8 = 2;

/// Liveness of a task.
#[derive(Debug, Clone, Copy, PartialEq, Eq, Structural)]
pub enum TaskStatus {
    /// Running or idle.
    Active,
    /// Had an error, still under budget; a success clears it.
    Retrying,
    /// Spent its budget; only a manual retry clears it.
    Blocked,
}

impl Default for TaskStatus {
    fn default() -> (s: TaskStatus)
        ensures
            s == TaskStatus::Active,
    {
        TaskStatus::Active
    }
}

/// One unit of agent work in one worktree.
#[derive(Debug, Clone, PartialEq, Eq)]
pub struct Task {
    pub id: TaskId,
    pub slug: String,
    /// The agent that runs it.
    pub agent_ref: String,
    /// Provider and model instead of the session's.
    pub model_override: Option<(String, String)>,
    /// Seconds after which the task is taken back.
    pub max_runtime_secs: Option<u64>,
    /// Errors after which the task is blocked.
    pub failure_limit: u8,
    /// Errors since the last success or manual retry.
    pub failure_count: u32,
    pub status: TaskStatus,
    /// The task that this one continues.
    pub parent: Option<TaskId>,
    /// Context for whoever continues the work.
    pub summary: Option<String>,
}

/// What a [`Task`] holds.
pub struct TaskModel {
    pub id: TaskId,
    pub slug: Seq<char>,
    pub agent_ref: Seq<char>,
    pub model_override: Option<(Seq<char>, Seq<char>)>,
    pub max_runtime_secs: Option<u64>,
    pub failure_limit: u8,
    pub failure_count: u32,
    pub status: TaskStatus,
    pub parent: Option<TaskId>,
    pub summary: Option<Seq<char>>,
}

/// What a choice of a model holds.
pub open spec fn model_choice(m: Option<(String, String)>) -> Option<(Seq<char>, Seq<char>)> {
    match m {
        Some((p, i)) => Some((p@, i@)),
        None => None,
    }
}

impl View for Task {
    type V = TaskModel;

    open spec fn view(&self) -> TaskModel {
        TaskModel {
            id: self.id,
            slug: self.slug@,
            agent_ref: self.agent_ref@,
            model_override: model_choice(self.model_override),
            max_runtime_secs: self.max_runtime_secs,
            failure_limit: self.failure_limit,
            failure_count: self.failure_count,
            status: self.status,
            parent: self.parent,
            summary: text::opt_text(self.summary),
        }
    }
}

/// A limit of at least one error.
pub open spec fn at_least_one(limit: u8) -> u8 {
    if limit == 0 {
        1
    } else {
        limit
    }
}

impl TaskModel {
    /// A new task: active, with the default budget and nothing else.
    pub open spec fn fresh(id: TaskId, slug: Seq<char>, agent_ref: Seq<char>) -> TaskModel {
        TaskModel {
            id,
            slug,
            agent_ref,
            model_override: None,
            max_runtime_secs: None,
            failure_limit: DEFAULT_FAILURE_LIMIT,
            failure_count: 0,
            status: TaskStatus::Active,
            parent: None,
            summary: None,
        }
    }

    /// A task that continues this one: a fresh count, the same budget, limits
    /// and context.
    pub open spec fn continued(self, id: TaskId, slug: Seq<char>, agent_ref: Seq<char>) -> TaskModel {
        TaskModel {
            id,
            slug,
            agent_ref,
            failure_count: 0,
            status: TaskStatus::Active,
            parent: Some(self.id),
            ..self
        }
    }

    /// After one error.
    pub open spec fn failed(self) -> TaskModel {
        if self.status == TaskStatus::Blocked {
            self
        } else {
            let count = if self.failure_count < u32::MAX {
                (self.failure_count + 1) as u32
            } else {
                u32::MAX
            };
            TaskModel {
                failure_count: count,
                status: if count >= at_least_one(self.failure_limit) {
                    TaskStatus::Blocked
                } else {
                    TaskStatus::Retrying
                },
                ..self
            }
        }
    }

    /// After one success.
    pub open spec fn succeeded(self) -> TaskModel {
        if self.status == TaskStatus::Blocked {
            self
        } else {
            TaskModel { failure_count: 0, status: TaskStatus::Active, ..self }
        }
    }

    /// After a manual retry.
    pub open spec fn retried(self) -> TaskModel {
        TaskModel { failure_count: 0, status: TaskStatus::Active, ..self }
    }

    /// After `n` errors in a row.
    pub open spec fn failed_times(self, n: nat) -> TaskModel
        decreases n,
    {
        if n == 0 {
            self
        } else {
            self.failed_times((n - 1) as nat).failed()
        }
    }
}

impl Task {
    /// A new task for a worktree and an agent, under an identity of its own.
    /// The identity is random.
    pub fn new(slug: &str, agent_ref: &str) -> (t: Task)
        ensures
            t@ == TaskModel::fresh(t@.id, slug@, agent_ref@),
    {
        Task::with_id(TaskId::new(), slug, agent_ref)
    }

    /// A new task under the given identity.
    pub fn with_id(id: TaskId, slug: &str, agent_ref: &str) -> (t: Task)
        ensures
            t@ == TaskModel::fresh(id, slug@, agent_ref@),
    {
        Task {
            id,
            slug: slug.to_owned(),
            agent_ref: agent_ref.to_owned(),
            model_override: None,
            max_runtime_secs: None,
            failure_limit: DEFAULT_FAILURE_LIMIT,
            failure_count: 0,
            status: TaskStatus::Active,
            parent: None,
            summary: None,
        }
    }

    /// The task with a model of its own.
    pub fn with_model(self, provider_id: &str, model_id: &str) -> (t: Task)
        ensures
            t@ == (TaskModel { model_override: Some((provider_id@, model_id@)), ..self@ }),
    {
        let mut t = self;
        t.model_override = Some((provider_id.to_owned(), model_id.to_owned()));
        t
    }

    /// The task with a retry budget of its own, at least one error.
    pub fn with_failure_limit(self, limit: u8) -> (t: Task)
        ensures
            t@ == (TaskModel { failure_limit: at_least_one(limit), ..self@ }),
    {
        let mut t = self;
        t.failure_limit = if limit == 0 {
            1
        } else {
            limit
        };
        t
    }

    /// The task as a continuation of another.
    pub fn with_parent(self, parent: TaskId) -> (t: Task)
        ensures
            t@ == (TaskModel { parent: Some(parent), ..self@ }),
    {
        let mut t = self;
        t.parent = Some(parent);
        t
    }

    /// The task with context for whoever continues it.
    pub fn with_summary(self, summary: &str) -> (t: Task)
        ensures
            t@ == (TaskModel { summary: Some(summary@), ..self@ }),
    {
        let mut t = self;
        t.summary = Some(summary.to_owned());
        t
    }

    /// A task that continues this one, under an identity of its own. The
    /// identity is random.
    pub fn child(&self, slug: &str, agent_ref: &str) -> (t: Task)
        ensures
            t@ == self@.continued(t@.id, slug@, agent_ref@),
    {
        self.child_with_id(TaskId::new(), slug, agent_ref)
    }

    /// A task that continues this one, under the given identity.
    pub fn child_with_id(&self, id: TaskId, slug: &str, agent_ref: &str) -> (t: Task)
        ensures
            t@ == self@.continued(id, slug@, agent_ref@),
    {
        let model_override = match &self.model_override {
            Some((p, m)) => Some((p.clone(), m.clone())),
            None => None,
        };
        Task {
            id,
            slug: slug.to_owned(),
            agent_ref: agent_ref.to_owned(),
            model_override,
            max_runtime_secs: self.max_runtime_secs,
            failure_limit: self.failure_limit,
            failure_count: 0,
            status: TaskStatus::Active,
            parent: Some(self.id),
            summary: text::copy_opt(&self.summary),
        }
    }

    /// Records one error, and returns the status after it: blocked once the
    /// budget is spent. A blocked task stays as it is.
    pub fn note_failure(&mut self) -> (s: TaskStatus)
        ensures
            final(self)@ == old(self)@.failed(),
            s == final(self)@.status,
    {
        if self.status == TaskStatus::Blocked {
            return TaskStatus::Blocked;
        }
        self.failure_count = self.failure_count.saturating_add(1);
        let limit: u8 = if self.failure_limit == 0 {
            1
        } else {
            self.failure_limit
        };
        self.status = if self.failure_count >= limit as u32 {
            TaskStatus::Blocked
        } else {
            TaskStatus::Retrying
        };
        self.status
    }

    /// Records one success: active again with a full budget. A blocked task
    /// stays as it is.
    pub fn note_success(&mut self)
        ensures
            final(self)@ == old(self)@.succeeded(),
    {
        if self.status != TaskStatus::Blocked {
            self.failure_count = 0;
            self.status = TaskStatus::Active;
        }
    }

    /// Manual retry: active again with a full budget, blocked or not.
    pub fn retry_reset(&mut self)
        ensures
            final(self)@ == old(self)@.retried(),
    {
        self.failure_count = 0;
        self.status = TaskStatus::Active;
    }
}

/// A blocked task changes by neither errors nor successes.
pub proof fn blocked_is_sticky(t: TaskModel)
    requires
        t.status == TaskStatus::Blocked,
    ensures
        t.failed() == t,
        t.succeeded() == t,
{
}

/// An active task with a full budget bears every number of errors below its
/// limit without being blocked, and is blocked by as many as its limit; its
/// count never grows beyond that.
pub proof fn blocked_at_the_limit(t: TaskModel, n: nat)
    requires
        t.status == TaskStatus::Active,
        t.failure_count == 0,
    ensures
        n < at_least_one(t.failure_limit) ==> t.failed_times(n).status != TaskStatus::Blocked,
        n >= at_least_one(t.failure_limit) ==> t.failed_times(n).status == TaskStatus::Blocked,
        t.failed_times(n).failure_count == (if n < at_least_one(t.failure_limit) {
            n as int
        } else {
            at_least_one(t.failure_limit) as int
        }),
        t.failed_times(n).failure_limit == t.failure_limit,
    decreases n,
{
    if n > 0 {
        blocked_at_the_limit(t, (n - 1) as nat);
    }
}

/// A manual retry undoes any number of errors: only the budget was touched.
pub proof fn retry_undoes_failures(t: TaskModel, n: nat)
    requires
        t.status == TaskStatus::Active,
        t.failure_count == 0,
    ensures
        t.failed_times(n).retried() == t,
    decreases n,
{
    if n > 0 {
        retry_undoes_failures(t, (n - 1) as nat);
    }
}

/// The first line of a text, without the white space around it.
pub open spec fn first_line(t: Seq<char>) -> Seq<char> {
    let l = text::lines(t);
    if l.len() == 0 {
        text::trim(Seq::empty(), text::blank())
    } else {
        text::trim(l[0], text::blank())
    }
}

/// One message in a handoff: its role and first line; nothing where that is
/// blank.
pub open spec fn handoff_line(m: transcript::MessageModel) -> Seq<char> {
    m.role.word() + ": "@ + first_line(m.text)
}

/// The handoff lines of the messages whose first line is not blank.
pub open spec fn handoff_lines(msgs: Seq<transcript::MessageModel>) -> Seq<Seq<char>>
    decreases msgs.len(),
{
    if msgs.len() == 0 {
        Seq::empty()
    } else if first_line(msgs.last().text).len() == 0 {
        handoff_lines(msgs.drop_last())
    } else {
        handoff_lines(msgs.drop_last()).push(handoff_line(msgs.last()))
    }
}

/// `s`, cut after `max` characters with a mark that it was.
pub open spec fn capped(s: Seq<char>, max: int) -> Seq<char> {
    if s.len() <= max {
        s
    } else {
        s.take(max) + "…"@
    }
}

/// `s`, cut after `max` characters with a mark that it was.
pub fn cap_text(s: &str, max: usize) -> (r: String)
    ensures
        r@ == capped(s@, max as int),
{
    let c = text::chars_of(s);
    if c.len() <= max {
        s.to_owned()
    } else {
        let mut r = text::slice_text(&c, 0, max);
        assert(r@ =~= s@.take(max as int));
        r.append("…");
        r
    }
}

/// The first of the last `take` of `n` messages; one is taken at least.
pub open spec fn tail_start(n: int, take: int) -> int {
    let t = if take < 1 {
        1
    } else {
        take
    };
    if n < t {
        0
    } else {
        n - t
    }
}

/// Context for a handoff: the last `take` messages, each as its role and the
/// first line of its text, cut after `max` characters; one message and one
/// character at least. `None` where all of the messages are blank.
pub open spec fn handoff(msgs: Seq<transcript::MessageModel>, take: int, max: int) -> Option<
    Seq<char>,
> {
    let lines = handoff_lines(msgs.skip(tail_start(msgs.len() as int, take)));
    if lines.len() == 0 {
        None
    } else {
        Some(
            capped(
                text::join(lines, "\n"@),
                if max < 1 {
                    1
                } else {
                    max
                },
            ),
        )
    }
}

/// Context for a handoff: the last `take` messages, each as its role and the
/// first line of its text, cut after `max_chars` characters. `None` where
/// all of them are blank.
pub fn handoff_summary(msgs: &[UnifiedMessage], take: usize, max_chars: usize) -> (r: Option<
    String,
>)
    ensures
        text::opt_text(r) == handoff(transcript::messages(msgs@), take as int, max_chars as int),
{
    let t: usize = if take == 0 {
        1
    } else {
        take
    };
    let start: usize = if msgs.len() < t {
        0
    } else {
        msgs.len() - t
    };
    let ghost tail = transcript::messages(msgs@).skip(start as int);
    let mut lines: Vec<String> = Vec::new();
    let mut i: usize = start;
    assert(tail.take(0) =~= Seq::empty());
    assert(text::texts(lines@) =~= Seq::empty());
    while i < msgs.len()
        invariant
            start <= i <= msgs@.len(),
            tail == transcript::messages(msgs@).skip(start as int),
            text::texts(lines@) == handoff_lines(tail.take(i - start)),
        decreases msgs@.len() - i,
    {
        let m = &msgs[i];
        assert(tail[i - start] == m@);
        assert(tail.take(i - start + 1).drop_last() =~= tail.take(i - start));
        let all = text::split_lines(m.text.as_str());
        let first = if all.len() == 0 {
            text::trimmed("")
        } else {
            text::trimmed(all[0].as_str())
        };
        proof {
            reveal_strlit("");
            assert(""@ =~= Seq::empty());
            if all@.len() > 0 {
                assert(text::texts(all@)[0] == all@[0]@);
            }
            assert(first@ == first_line(m@.text));
        }
        if !first.as_str().is_empty() {
            let mut line = m.role.as_word().to_owned();
            line.append(": ");
            line.append(first.as_str());
            let ghost was = lines@;
            lines.push(line);
            assert(text::texts(lines@) =~= text::texts(was).push(line@));
        }
        i += 1;
    }
    assert(tail.take(tail.len() as int) =~= tail);
    if lines.len() == 0 {
        return None;
    }
    let max: usize = if max_chars == 0 {
        1
    } else {
        max_chars
    };
    let whole = text::joined(&lines, "\n");
    Some(cap_text(whole.as_str(), max))
}

/// A handoff is never longer than its limit and the mark of the cut.
pub proof fn capped_length(s: Seq<char>, max: int)
    requires
        0 <= max,
    ensures
        capped(s, max).len() <= max + 1,
{
    reveal_strlit("…");
}

/// New tasks are alike but for their identities: active, with the default
/// budget, no errors, and neither model, limit, parent nor summary. Two of
/// different identities are different tasks, also with equal arguments, and so
/// are a task and one that continues it.
pub proof fn tasks_differ_by_identity(
    a: TaskId,
    b: TaskId,
    slug: Seq<char>,
    agent_ref: Seq<char>,
    of: TaskModel,
)
    requires
        a != b,
    ensures
        TaskModel::fresh(a, slug, agent_ref).id == a,
        TaskModel::fresh(a, slug, agent_ref).failure_limit == 2,
        TaskModel::fresh(a, slug, agent_ref).failure_count == 0,
        TaskModel::fresh(a, slug, agent_ref).status == TaskStatus::Active,
        TaskModel::fresh(a, slug, agent_ref).model_override is None,
        TaskModel::fresh(a, slug, agent_ref).max_runtime_secs is None,
        TaskModel::fresh(a, slug, agent_ref).parent is None,
        TaskModel::fresh(a, slug, agent_ref).summary is None,
        TaskModel::fresh(a, slug, agent_ref).id != TaskModel::fresh(b, slug, agent_ref).id,
        TaskModel::fresh(a, slug, agent_ref) == (TaskModel {
            id: a,
            ..TaskModel::fresh(b, slug, agent_ref)
        }),
        of.id == a ==> of.continued(b, slug, agent_ref).id != of.id && of.continued(
            b,
            slug,
            agent_ref,
        ).parent == Some(of.id),
{
}

/// One failure of a task that is not blocked counts once, and blocks it from
/// the limit on; a success or a retry clears the count. Nothing else of the
/// task changes.
pub proof fn failures_count_and_clear(t: TaskModel)
    requires
        t.status != TaskStatus::Blocked,
        t.failure_count < u32::MAX,
    ensures
        t.failed().failure_count == t.failure_count + 1,
        t.failed().status == TaskStatus::Blocked <==> t.failure_count + 1 >= t.failure_limit,
        t.failed().status == TaskStatus::Retrying <==> t.failure_count + 1 < t.failure_limit,
        t.failed() == (TaskModel {
            failure_count: t.failed().failure_count,
            status: t.failed().status,
            ..t
        }),
        t.succeeded().failure_count == 0,
        t.succeeded().status == TaskStatus::Active,
        t.succeeded() == (TaskModel { failure_count: 0, status: TaskStatus::Active, ..t }),
        t.failed().retried().failure_count == 0,
        t.failed().retried().status == TaskStatus::Active,
        t.failed().retried().summary == t.summary,
{
}

/// The lines of a handoff are those of its messages, one for each message
/// whose first line is not blank, in order: who spoke, then the line.
pub proof fn handoff_tells_each_message(msgs: Seq<transcript::MessageModel>)
    ensures
        handoff_lines(msgs) == msgs.filter(
            |m: transcript::MessageModel| first_line(m.text).len() > 0,
        ).map_values(
            |m: transcript::MessageModel|
                (match m.role {
                    transcript::Role::User => "user"@,
                    transcript::Role::Agent => "agent"@,
                    transcript::Role::Tool => "tool"@,
                }) + seq![':', ' '] + first_line(m.text),
        ),
    decreases msgs.len(),
{
    reveal(Seq::filter);
    reveal_strlit(": ");
    assert(": "@ =~= seq![':', ' ']);
    let p = |m: transcript::MessageModel| first_line(m.text).len() > 0;
    let f = |m: transcript::MessageModel|
        (match m.role {
            transcript::Role::User => "user"@,
            transcript::Role::Agent => "agent"@,
            transcript::Role::Tool => "tool"@,
        }) + seq![':', ' '] + first_line(m.text);
    if msgs.len() > 0 {
        handoff_tells_each_message(msgs.drop_last());
        let rest = msgs.drop_last().filter(p);
        assert(rest.push(msgs.last()).map_values(f) =~= rest.map_values(f).push(f(msgs.last())));
    }
    assert(handoff_lines(msgs) =~= msgs.filter(p).map_values(f));
}

/// Only the last messages count in a handoff: what stands before them changes
/// nothing of it.
pub proof fn handoff_forgets_the_past(
    old: Seq<transcript::MessageModel>,
    recent: Seq<transcript::MessageModel>,
    take: int,
    max: int,
)
    requires
        1 <= take <= recent.len(),
    ensures
        handoff(old + recent, take, max) == handoff(recent, take, max),
        recent.len() == take ==> (handoff(recent, take, max) is None <==> forall|i: int|
            0 <= i < recent.len() ==> first_line((#[trigger] recent[i]).text).len() == 0),
{
    let all = old + recent;
    assert(all.skip(all.len() - take) =~= recent.skip(recent.len() - take));
    if recent.len() == take {
        assert(recent.skip(0) =~= recent);
        no_lines_of_blank(recent);
    }
}

proof fn no_lines_of_blank(msgs: Seq<transcript::MessageModel>)
    ensures
        handoff_lines(msgs).len() == 0 <==> forall|i: int|
            0 <= i < msgs.len() ==> first_line((#[trigger] msgs[i]).text).len() == 0,
    decreases msgs.len(),
{
    if msgs.len() > 0 {
        let rest = msgs.drop_last();
        no_lines_of_blank(rest);
        assert forall|i: int| 0 <= i < rest.len() implies rest[i] == #[trigger] msgs[i] by {}
        assert(msgs[msgs.len() - 1] == msgs.last());
        if forall|i: int| 0 <= i < msgs.len() ==> first_line((#[trigger] msgs[i]).text).len() == 0 {
            assert forall|i: int| 0 <= i < rest.len() implies first_line(
                (#[trigger] rest[i]).text,
            ).len() == 0 by {
                assert(rest[i] == msgs[i]);
            }
        }
        if handoff_lines(msgs).len() == 0 {
            assert forall|i: int| 0 <= i < msgs.len() implies first_line(
                (#[trigger] msgs[i]).text,
            ).len() == 0 by {
                if i < rest.len() {
                    assert(rest[i] == msgs[i]);
                }
            }
        }
    }
}

/// A handoff is its lines with line breaks between them where they fit, and
/// otherwise their beginning, as long as fits, and a mark that more was there.
pub proof fn handoff_is_cut_with_a_mark(s: Seq<char>, max: int)
    requires
        0 <= max,
    ensures
        s.len() <= max ==> capped(s, max) == s,
        s.len() > max ==> capped(s, max).len() == max + 1 && capped(s, max).take(max) == s.take(
            max,
        ) && capped(s, max)[max] == '…',
{
    reveal_strlit("…");
    if s.len() > max {
        assert(capped(s, max).take(max) =~= s.take(max));
    }
}

/// A task that goes on from another starts clean, under its own identity and
/// name, and takes over what was allowed and what is known of the work.
pub proof fn continued_task_starts_clean(
    of: TaskModel,
    id: TaskId,
    slug: Seq<char>,
    agent_ref: Seq<char>,
)
    ensures
        ({
            let t = of.continued(id, slug, agent_ref);
            &&& t.id == id && t.slug == slug && t.agent_ref == agent_ref
            &&& t.failure_count == 0
            &&& t.status == TaskStatus::Active
            &&& t.parent == Some(of.id)
            &&& t.failure_limit == of.failure_limit
            &&& t.max_runtime_secs == of.max_runtime_secs
            &&& t.model_override == of.model_override
            &&& t.summary == of.summary
        }),
{
}

/// The first line of a text is what stands before its first line break, with
/// the blanks at its ends taken off.
pub proof fn first_line_is_trimmed(a: Seq<char>, s: Seq<char>, b: Seq<char>, rest: Seq<char>)
    requires
        forall|i: int|
            0 <= i < a.len() ==> text::is_space(#[trigger] a[i]) && a[i] != '\n' && a[i] != '\r',
        forall|i: int|
            0 <= i < b.len() ==> text::is_space(#[trigger] b[i]) && b[i] != '\n' && b[i] != '\r',
        forall|i: int| 0 <= i < s.len() ==> #[trigger] s[i] != '\n',
        s.len() > 0,
        !text::is_space(s[0]) && !text::is_space(s.last()),
    ensures
        first_line(a + s + b) == s,
        first_line(a + s + b + seq!['\n'] + rest) == s,
{
    let l = a + s + b;
    assert forall|i: int| 0 <= i < l.len() implies #[trigger] l[i] != '\n' by {
        if i < a.len() {
            assert(l[i] == a[i]);
        } else if i < a.len() + s.len() {
            assert(l[i] == s[i - a.len()]);
        } else {
            assert(l[i] == b[i - a.len() - s.len()]);
        }
    }
    assert(l.last() != '\r') by {
        if b.len() > 0 {
            assert(l.last() == b[b.len() - 1]);
        } else {
            assert(l.last() == s.last());
        }
    }
    text::lines_split_at_breaks(l, rest);
    text::trim_takes_both_ends(a, s, b, text::blank());
}

/// A handoff takes the last messages only, at least one, joined by line breaks
/// and cut to the length given, at least one character.
pub proof fn handoff_joins_the_last_messages(
    msgs: Seq<transcript::MessageModel>,
    take: int,
    max: int,
)
    requires
        1 <= take <= msgs.len(),
        1 <= max,
    ensures
        handoff(msgs, take, max) matches Some(s) ==> s == capped(
            text::join(handoff_lines(msgs.skip(msgs.len() - take)), seq!['\n']),
            max,
        ),
        handoff(msgs, take, max) is None <==> handoff_lines(msgs.skip(msgs.len() - take)).len()
            == 0,
        handoff(msgs, 0, max) == handoff(msgs, 1, max),
{
    reveal_strlit("\n");
    assert("\n"@ =~= seq!['\n']);
}

/// Failures are counted up to the largest number there is, and a task that
/// has so many is blocked.
pub proof fn failures_stay_at_the_largest(t: TaskModel)
    requires
        t.status != TaskStatus::Blocked,
        t.failure_count == u32::MAX,
    ensures
        t.failed().failure_count == u32::MAX,
        t.failed().status == TaskStatus::Blocked,
{
}

} // verus!
