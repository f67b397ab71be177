//! The mirrored state of worktrees, sessions and tasks.
use crate::order;
use crate::session::{
    ConnState, FileDiff, MessageEntry, PendingPermission, ProviderInfo, SelectedModel, Session,
    SessionStatus, Todo, Usage, WorktreeRecord, WorktreeStatus,
};
use crate::sorted_map;
use crate::sorted_map::StrMap;
use crate::text;
use crate::transcript;
use crate::transcript::{MessageModel, TaskId, TaskMap, UnifiedMessage};
use std::collections::VecDeque;
use vstd::prelude::*;
use vstd::string::*;

verus! {

/// Everything that is mirrored.
pub struct Store {
    pub worktrees: StrMap<WorktreeRecord>,
    pub active_worktree: Option<String>,
    /// The last errors, oldest first.
    pub errors: VecDeque<String>,
    pub conn: ConnState,
    pub sessions: StrMap<Session>,
    pub statuses: StrMap<SessionStatus>,
    pub messages: StrMap<Vec<MessageEntry>>,
    /// Changes by session; `None` where they could not be read.
    pub diffs: StrMap<Option<Vec<FileDiff>>>,
    pub todos: StrMap<Vec<Todo>>,
    pub pending_permissions: StrMap<PendingPermission>,
    pub providers: Vec<ProviderInfo>,
    pub selected_model: Option<SelectedModel>,
    /// What all messages cost, one by one.
    pub totals: Vec<Usage>,
    pub active_session: Option<String>,
    /// The worktree of each session; nothing, or an empty name, for the
    /// repository itself.
    pub session_scope: StrMap<String>,
    pub transcripts: TaskMap<Vec<UnifiedMessage>>,
    /// What each task cost, message by message.
    pub ledgers: TaskMap<Vec<Usage>>,
    /// What each task cost in all: the sum of its ledger, or what its agent
    /// reported. Doubles are added up elsewhere.
    pub costs: TaskMap<Usage>,
    pub session_task: StrMap<TaskId>,
    /// Sessions that went with their worktree: what still comes in for them
    /// is ignored.
    pub retired_sessions: StrMap<()>,
    /// Tasks that were stopped, each with its worktree; an empty name for a
    /// task without one.
    pub blocked: TaskMap<String>,
}

/// The first of some keys.
pub open spec fn first_key(keys: Seq<Seq<char>>) -> Option<Seq<char>> {
    if keys.len() == 0 {
        None
    } else {
        Some(keys[0])
    }
}

fn first_of<V>(m: &StrMap<V>) -> (r: Option<String>)
    ensures
        text::opt_text(r) == first_key(m.keys()),
        r matches Some(k) ==> m@.dom().contains(k@),
{
    if m.len() == 0 {
        return None;
    }
    assert(m@.dom().contains(m.entries()[0].0));
    Some(m.key_at(0).clone())
}

/// The last `n` of a list.
pub open spec fn last_of<T>(s: Seq<T>, n: int) -> Seq<T> {
    if s.len() <= n {
        s
    } else {
        s.skip(s.len() - n)
    }
}

fn is_text(s: &Option<String>, t: &str) -> (r: bool)
    ensures
        r == (text::opt_text(*s) == Some(t@)),
{
    match s {
        Some(x) => text::same(x.as_str(), t),
        None => false,
    }
}

/// The place of the first message with an identity, or the end.
pub open spec fn place_of(list: Seq<MessageModel>, id: Seq<char>) -> int
    decreases list.len(),
{
    if list.len() == 0 {
        0
    } else if place_of(list.drop_last(), id) < list.len() - 1 {
        place_of(list.drop_last(), id)
    } else if list.last().id == id {
        list.len() - 1
    } else {
        list.len() as int
    }
}

/// The place of an identity is a message with it, and none before it has it.
pub proof fn place_of_is_first(list: Seq<MessageModel>, id: Seq<char>)
    ensures
        0 <= place_of(list, id) <= list.len(),
        forall|i: int| 0 <= i < place_of(list, id) ==> (#[trigger] list[i]).id != id,
        place_of(list, id) < list.len() ==> list[place_of(list, id)].id == id,
    decreases list.len(),
{
    if list.len() > 0 {
        let rest = list.drop_last();
        place_of_is_first(rest, id);
        assert forall|i: int| 0 <= i < place_of(list, id) implies (#[trigger] list[i]).id != id by {
            if i < rest.len() {
                assert(rest[i] == list[i]);
            }
        }
    }
}

proof fn place_of_unique(list: Seq<MessageModel>, id: Seq<char>, at: int)
    requires
        0 <= at <= list.len(),
        forall|i: int| 0 <= i < at ==> (#[trigger] list[i]).id != id,
        at < list.len() ==> list[at].id == id,
    ensures
        place_of(list, id) == at,
{
    place_of_is_first(list, id);
    let p = place_of(list, id);
    if p < at {
        assert(list[p].id != id);
    } else if at < p {
        assert(list[at].id != id);
    }
}

/// A list of messages with one more: it takes the place of the message with
/// its identity, or comes last.
pub open spec fn with_message(list: Seq<MessageModel>, m: MessageModel) -> Seq<MessageModel> {
    if place_of(list, m.id) < list.len() {
        list.update(place_of(list, m.id), m)
    } else {
        list.push(m)
    }
}

/// What transcripts hold, by task.
pub type Transcripts = Map<TaskId, Seq<MessageModel>>;

/// What transcripts hold.
pub open spec fn transcripts_of(m: Map<TaskId, Vec<UnifiedMessage>>) -> Transcripts {
    m.map_values(|v: Vec<UnifiedMessage>| transcript::messages(v@))
}

/// The transcript of a task.
pub open spec fn transcript_at(t: Transcripts, task: TaskId) -> Seq<MessageModel> {
    if t.dom().contains(task) {
        t[task]
    } else {
        Seq::empty()
    }
}

/// Transcripts with one more message.
pub open spec fn with_unified(t: Transcripts, m: MessageModel) -> Transcripts {
    t.insert(m.task, with_message(transcript_at(t, m.task), m))
}

/// Transcripts with the lines of a message.
pub open spec fn with_lines(
    t: Transcripts,
    task: TaskId,
    lines: Seq<crate::session::EntryLine>,
) -> Transcripts
    decreases lines.len(),
{
    if lines.len() == 0 {
        t
    } else {
        with_unified(with_lines(t, task, lines.drop_last()), lines.last().stamped(task))
    }
}

/// Transcripts with the lines of some messages.
pub open spec fn with_entries(t: Transcripts, task: TaskId, entries: Seq<MessageEntry>) -> Transcripts
    decreases entries.len(),
{
    if entries.len() == 0 {
        t
    } else {
        with_lines(with_entries(t, task, entries.drop_last()), task, entries.last().lines@)
    }
}

/// What some messages cost, one by one.
pub open spec fn usage_of(entries: Seq<MessageEntry>) -> Seq<Usage>
    decreases entries.len(),
{
    if entries.len() == 0 {
        Seq::empty()
    } else {
        let rest = usage_of(entries.drop_last());
        match entries.last().usage {
            Some(u) => rest.push(u),
            None => rest,
        }
    }
}

/// What the messages of some sessions cost, one by one.
pub open spec fn usage_of_all(sessions: Seq<(Seq<char>, Vec<MessageEntry>)>) -> Seq<Usage>
    decreases sessions.len(),
{
    if sessions.len() == 0 {
        Seq::empty()
    } else {
        usage_of_all(sessions.drop_last()) + usage_of(sessions.last().1@)
    }
}

/// What the messages of those sessions cost that belong to a task.
pub open spec fn usage_of_task(
    links: Seq<(Seq<char>, TaskId)>,
    messages: Map<Seq<char>, Vec<MessageEntry>>,
    task: TaskId,
) -> Seq<Usage>
    decreases links.len(),
{
    if links.len() == 0 {
        Seq::empty()
    } else {
        let rest = usage_of_task(links.drop_last(), messages, task);
        let (sid, t) = links.last();
        if t == task && messages.dom().contains(sid) {
            rest + usage_of(messages[sid]@)
        } else {
            rest
        }
    }
}

/// What ledgers hold, by task.
pub open spec fn ledger_map(m: Map<TaskId, Vec<Usage>>) -> Map<TaskId, Seq<Usage>> {
    m.map_values(|v: Vec<Usage>| v@)
}

fn push_usage(out: &mut Vec<Usage>, entries: &Vec<MessageEntry>)
    ensures
        final(out)@ == old(out)@ + usage_of(entries@),
{
    let ghost was = out@;
    let mut i: usize = 0;
    assert(entries@.take(0) =~= Seq::empty());
    assert(was + usage_of(entries@.take(0)) =~= was);
    while i < entries.len()
        invariant
            i <= entries@.len(),
            out@ == was + usage_of(entries@.take(i as int)),
        decreases entries@.len() - i,
    {
        assert(entries@.take(i + 1).drop_last() =~= entries@.take(i as int));
        let ghost before = out@;
        if let Some(u) = entries[i].usage {
            out.push(u);
            assert(out@ =~= was + usage_of(entries@.take(i + 1)));
        }
        i += 1;
    }
    assert(entries@.take(entries@.len() as int) =~= entries@);
}

impl Default for Store {
    fn default() -> (s: Store)
        ensures
            s.is_new(),
    {
        Store::new()
    }
}

/// The task `t` belongs to the worktree `slug`.
pub open spec fn owned_by(slug: Seq<char>) -> spec_fn(String) -> bool {
    |s: String| s@ == slug
}

/// The task belongs to another worktree.
pub open spec fn not_owned_by(slug: Seq<char>) -> spec_fn(String) -> bool {
    |s: String| s@ != slug
}

/// The permission is asked for by another session.
pub open spec fn not_asked_by(sid: Seq<char>) -> spec_fn(PendingPermission) -> bool {
    |p: PendingPermission| p.session_id@ != sid
}

/// A worktree without its link to a session.
pub open spec fn unlinked(r: WorktreeRecord, sid: Seq<char>) -> WorktreeRecord {
    if text::opt_text(r.session_id) == Some(sid) {
        WorktreeRecord { session_id: None, ..r }
    } else {
        r
    }
}

impl Store {
    /// Nothing is mirrored yet.
    pub open spec fn is_new(&self) -> bool {
        &&& self.worktrees@ == Map::<Seq<char>, WorktreeRecord>::empty()
        &&& self.active_worktree is None
        &&& self.errors@ == Seq::<String>::empty()
        &&& self.conn == ConnState::Connecting
        &&& self.sessions@ == Map::<Seq<char>, Session>::empty()
        &&& self.statuses@ == Map::<Seq<char>, SessionStatus>::empty()
        &&& self.messages@ == Map::<Seq<char>, Vec<MessageEntry>>::empty()
        &&& self.diffs@ == Map::<Seq<char>, Option<Vec<FileDiff>>>::empty()
        &&& self.todos@ == Map::<Seq<char>, Vec<Todo>>::empty()
        &&& self.pending_permissions@ == Map::<Seq<char>, PendingPermission>::empty()
        &&& self.providers@ == Seq::<ProviderInfo>::empty()
        &&& self.selected_model is None
        &&& self.totals@ == Seq::<Usage>::empty()
        &&& self.active_session is None
        &&& self.session_scope@ == Map::<Seq<char>, String>::empty()
        &&& self.transcripts@ == Map::<TaskId, Vec<UnifiedMessage>>::empty()
        &&& self.ledgers@ == Map::<TaskId, Vec<Usage>>::empty()
        &&& self.costs@ == Map::<TaskId, Usage>::empty()
        &&& self.session_task@ == Map::<Seq<char>, TaskId>::empty()
        &&& self.retired_sessions@ == Map::<Seq<char>, ()>::empty()
        &&& self.blocked@ == Map::<TaskId, String>::empty()
    }

    /// A store in which nothing is mirrored yet.
    pub fn new() -> (s: Store)
        ensures
            s.is_new(),
    {
        Store {
            worktrees: StrMap::new(),
            active_worktree: None,
            errors: VecDeque::new(),
            conn: ConnState::Connecting,
            sessions: StrMap::new(),
            statuses: StrMap::new(),
            messages: StrMap::new(),
            diffs: StrMap::new(),
            todos: StrMap::new(),
            pending_permissions: StrMap::new(),
            providers: Vec::new(),
            selected_model: None,
            totals: Vec::new(),
            active_session: None,
            session_scope: StrMap::new(),
            transcripts: TaskMap::new(),
            ledgers: TaskMap::new(),
            costs: TaskMap::new(),
            session_task: StrMap::new(),
            retired_sessions: StrMap::new(),
            blocked: TaskMap::new(),
        }
    }

    /// The active worktree, if any, is a known one.
    pub open spec fn active_is_known(&self) -> bool {
        text::opt_text(self.active_worktree) matches Some(s) ==> self.worktrees@.dom().contains(s)
    }

    /// Takes in a worktree. The first one becomes active.
    pub fn upsert_worktree(&mut self, record: WorktreeRecord)
        ensures
            *final(self) == (Store {
                worktrees: final(self).worktrees,
                active_worktree: final(self).active_worktree,
                ..*old(self)
            }),
            final(self).worktrees@ == old(self).worktrees@.insert(record.slug@, record),
            text::opt_text(final(self).active_worktree) == (match text::opt_text(
                old(self).active_worktree,
            ) {
                Some(s) => Some(s),
                None => Some(record.slug@),
            }),
            old(self).active_is_known() ==> final(self).active_is_known(),
    {
        if self.active_worktree.is_none() {
            self.active_worktree = Some(record.slug.clone());
        }
        self.worktrees.insert(record.slug.clone(), record);
    }

    /// Forgets a worktree. Where it was active, the first of the others is
    /// active now.
    pub fn remove_worktree(&mut self, slug: &str) -> (r: bool)
        ensures
            *final(self) == (Store {
                worktrees: final(self).worktrees,
                active_worktree: final(self).active_worktree,
                ..*old(self)
            }),
            r == old(self).worktrees@.dom().contains(slug@),
            final(self).worktrees@ == old(self).worktrees@.remove(slug@),
            text::opt_text(final(self).active_worktree) == (if text::opt_text(
                old(self).active_worktree,
            ) == Some(slug@) {
                first_key(final(self).worktrees.keys())
            } else {
                text::opt_text(old(self).active_worktree)
            }),
            old(self).active_is_known() ==> final(self).active_is_known(),
    {
        let removed = self.worktrees.remove(slug).is_some();
        if is_text(&self.active_worktree, slug) {
            self.active_worktree = first_of(&self.worktrees);
        }
        removed
    }

    /// Makes a known worktree active.
    pub fn set_active(&mut self, slug: &str) -> (r: bool)
        ensures
            *final(self) == (Store { active_worktree: final(self).active_worktree, ..*old(self) }),
            r == old(self).worktrees@.dom().contains(slug@),
            text::opt_text(final(self).active_worktree) == (if r {
                Some(slug@)
            } else {
                text::opt_text(old(self).active_worktree)
            }),
            old(self).active_is_known() ==> final(self).active_is_known(),
    {
        if self.worktrees.contains_key(slug) {
            self.active_worktree = Some(slug.to_owned());
            true
        } else {
            false
        }
    }

    /// Takes in an error; the last twenty are kept.
    pub fn push_error(&mut self, msg: String)
        ensures
            *final(self) == (Store { errors: final(self).errors, ..*old(self) }),
            final(self).errors@ == last_of(old(self).errors@.push(msg), 20),
    {
        self.errors.push_back(msg);
        let ghost all = self.errors@;
        while self.errors.len() > 20
            invariant
                all == old(self).errors@.push(msg),
                self.errors@.len() <= all.len(),
                self.errors@ == all.skip(all.len() - self.errors@.len()),
                self.errors@.len() >= 20 || self.errors@ == all,
                *self == (Store { errors: self.errors, ..*old(self) }),
            decreases self.errors@.len(),
        {
            let ghost was = self.errors@;
            self.errors.pop_front();
            assert(self.errors@ =~= was.drop_first());
            assert(self.errors@ =~= all.skip(all.len() - self.errors@.len()));
        }
        assert(all.skip(0) =~= all);
    }

    /// Takes in a task that was stopped.
    pub fn mark_blocked(&mut self, task: TaskId, slug: String)
        ensures
            *final(self) == (Store { blocked: final(self).blocked, ..*old(self) }),
            final(self).blocked@ == old(self).blocked@.insert(task, slug),
    {
        self.blocked.insert(task, slug);
    }

    /// Some stopped task belongs to the worktree.
    pub open spec fn has_blocked(&self, slug: Seq<char>) -> bool {
        exists|t: TaskId| #[trigger]
            self.blocked@.dom().contains(t) && self.blocked@[t]@ == slug
    }

    /// Whether some stopped task belongs to a worktree.
    pub fn is_blocked_slug(&self, slug: &str) -> (r: bool)
        ensures
            r == self.has_blocked(slug@),
    {
        let n: usize = self.blocked.len();
        let ghost all = self.blocked.entries();
        let mut i: usize = 0;
        while i < n
            invariant
                i <= n == all.len(),
                all == self.blocked.entries(),
                forall|k: int|
                    0 <= k < all.len() ==> self.blocked@.dom().contains((#[trigger] all[k]).0)
                        && self.blocked@[all[k].0] == all[k].1,
                forall|k: int| 0 <= k < i ==> (#[trigger] all[k]).1@ != slug@,
            decreases n - i,
        {
            if text::same(self.blocked.value_at(i).as_str(), slug) {
                assert(self.blocked@.dom().contains(all[i as int].0));
                return true;
            }
            i += 1;
        }
        proof {
            if self.has_blocked(slug@) {
                let t = choose|t: TaskId| #[trigger]
                    self.blocked@.dom().contains(t) && self.blocked@[t]@ == slug@;
                let k = choose|k: int| 0 <= k < all.len() && self.blocked.keys()[k] == t;
                assert(all[k].0 == t);
            }
        }
        false
    }

    /// Forgets the stopped tasks of a worktree, and returns them in the order
    /// of their identities.
    pub fn clear_blocked_by_slug(&mut self, slug: &str) -> (out: Vec<TaskId>)
        ensures
            *final(self) == (Store { blocked: final(self).blocked, ..*old(self) }),
            out@ == sorted_map::keys_of(
                sorted_map::kept(old(self).blocked.entries(), owned_by(slug@)),
            ),
            final(self).blocked.entries() == sorted_map::kept(
                old(self).blocked.entries(),
                not_owned_by(slug@),
            ),
            final(self).blocked@ == Map::new(
                |t: TaskId|
                    old(self).blocked@.dom().contains(t) && old(self).blocked@[t]@ != slug@,
                |t: TaskId| old(self).blocked@[t],
            ),
            !final(self).has_blocked(slug@),
    {
        let n: usize = self.blocked.len();
        let ghost all = self.blocked.entries();
        let ghost keep = not_owned_by(slug@);
        let ghost mine = owned_by(slug@);
        let mut out: Vec<TaskId> = Vec::new();
        let mut i: usize = 0;
        let mut seen: usize = 0;
        assert(all.take(0) =~= Seq::empty());
        assert(all.skip(0) =~= all);
        assert(sorted_map::kept(all.take(0), keep) + all.skip(0) =~= all);
        assert(sorted_map::keys_of(sorted_map::kept(all.take(0), mine)) =~= Seq::empty());
        while seen < n
            invariant
                seen <= n == all.len(),
                keep == not_owned_by(slug@),
                mine == owned_by(slug@),
                i == sorted_map::kept(all.take(seen as int), keep).len(),
                i <= seen,
                self.blocked.entries() == sorted_map::kept(all.take(seen as int), keep) + all.skip(
                    seen as int,
                ),
                out@ == sorted_map::keys_of(sorted_map::kept(all.take(seen as int), mine)),
                *self == (Store { blocked: self.blocked, ..*old(self) }),
            decreases n - seen,
        {
            let ghost kept_so_far = sorted_map::kept(all.take(seen as int), keep);
            let ghost mine_so_far = sorted_map::kept(all.take(seen as int), mine);
            assert(all.take(seen + 1).drop_last() =~= all.take(seen as int));
            assert(all.skip(seen as int)[0] == all[seen as int]);
            assert(self.blocked.entries()[i as int] == all[seen as int]);
            if text::same(self.blocked.value_at(i).as_str(), slug) {
                let id = *self.blocked.key_at(i);
                self.blocked.remove_at(i);
                assert(self.blocked.entries() =~= kept_so_far + all.skip(seen + 1));
                out.push(id);
                assert(sorted_map::keys_of(mine_so_far.push(all[seen as int])) =~= out@);
            } else {
                i += 1;
                assert(kept_so_far.push(all[seen as int]) + all.skip(seen + 1) =~= kept_so_far
                    + all.skip(seen as int));
            }
            seen += 1;
        }
        assert(all.take(n as int) =~= all);
        assert(all.skip(n as int) =~= Seq::empty());
        assert(self.blocked.entries() =~= sorted_map::kept(all, keep));
        let m: usize = self.blocked.len();
        proof {
            sorted_map::kept_map(all, keep);
            assert(self.blocked@ =~= Map::new(
                |t: TaskId|
                    old(self).blocked@.dom().contains(t) && old(self).blocked@[t]@ != slug@,
                |t: TaskId| old(self).blocked@[t],
            ));
        }
        out
    }

    /// The messages of the active session.
    pub fn active_messages(&self) -> (r: Option<&Vec<MessageEntry>>)
        ensures
            match text::opt_text(self.active_session) {
                Some(sid) => if self.messages@.dom().contains(sid) {
                    r matches Some(v) && *v == self.messages@[sid]
                } else {
                    r is None
                },
                None => r is None,
            },
    {
        match &self.active_session {
            Some(id) => self.messages.get(id.as_str()),
            None => None,
        }
    }

    /// The session has work to do.
    pub open spec fn works(&self, sid: Seq<char>) -> bool {
        self.statuses@.dom().contains(sid) && self.statuses@[sid].working()
    }

    /// Whether the active session has work to do.
    pub fn is_busy(&self) -> (r: bool)
        ensures
            r == (text::opt_text(self.active_session) matches Some(sid) && self.works(sid)),
    {
        match &self.active_session {
            Some(id) => self.is_working(id.as_str()),
            None => false,
        }
    }

    /// Whether a session has work to do.
    pub fn is_working(&self, sid: &str) -> (r: bool)
        ensures
            r == self.works(sid@),
    {
        match self.statuses.get(sid) {
            Some(s) => s.is_working(),
            None => false,
        }
    }

    /// A session waits for a decision.
    pub open spec fn waits(&self, sid: Seq<char>) -> bool {
        exists|k: Seq<char>| #[trigger]
            self.pending_permissions@.dom().contains(k) && self.pending_permissions@[k].session_id@
                == sid
    }

    /// Whether a session waits for a decision.
    pub fn has_pending(&self, sid: &str) -> (r: bool)
        ensures
            r == self.waits(sid@),
    {
        let n: usize = self.pending_permissions.len();
        let ghost all = self.pending_permissions.entries();
        let mut i: usize = 0;
        while i < n
            invariant
                i <= n == all.len(),
                all == self.pending_permissions.entries(),
                forall|k: int|
                    0 <= k < all.len() ==> self.pending_permissions@.dom().contains(
                        (#[trigger] all[k]).0,
                    ) && self.pending_permissions@[all[k].0] == all[k].1,
                forall|k: int| 0 <= k < i ==> (#[trigger] all[k]).1.session_id@ != sid@,
            decreases n - i,
        {
            if text::same(self.pending_permissions.value_at(i).session_id.as_str(), sid) {
                assert(self.pending_permissions@.dom().contains(all[i as int].0));
                return true;
            }
            i += 1;
        }
        proof {
            if self.waits(sid@) {
                let t = choose|t: Seq<char>| #[trigger]
                    self.pending_permissions@.dom().contains(t)
                        && self.pending_permissions@[t].session_id@ == sid@;
                let k = choose|k: int|
                    0 <= k < all.len() && self.pending_permissions.keys()[k] == t;
                assert(all[k].0 == t);
            }
        }
        false
    }

    /// The task of a session: the one it has, or a new one under `fresh`.
    pub open spec fn task_of(&self, sid: Seq<char>, fresh: TaskId) -> TaskId {
        if self.session_task@.dom().contains(sid) {
            self.session_task@[sid]
        } else {
            fresh
        }
    }

    /// The task of a session; a new one is drawn on first use.
    pub fn task_for_session(&mut self, sid: &str) -> (t: TaskId)
        ensures
            t == old(self).task_of(sid@, t),
            *final(self) == (Store { session_task: final(self).session_task, ..*old(self) }),
            final(self).session_task@ == old(self).session_task@.insert(sid@, t),
    {
        self.task_for_session_as(sid, TaskId::new())
    }

    /// The task of a session; `fresh` on first use.
    pub fn task_for_session_as(&mut self, sid: &str, fresh: TaskId) -> (t: TaskId)
        ensures
            t == old(self).task_of(sid@, fresh),
            *final(self) == (Store { session_task: final(self).session_task, ..*old(self) }),
            final(self).session_task@ == old(self).session_task@.insert(sid@, t),
    {
        if let Some(t) = self.session_task.get(sid) {
            assert(self.session_task@ =~= self.session_task@.insert(sid@, *t));
            return *t;
        }
        self.session_task.insert(sid.to_owned(), fresh);
        fresh
    }

    /// Takes in a message of a task: it replaces the one with its identity,
    /// or comes last.
    pub fn push_unified(&mut self, msg: UnifiedMessage)
        ensures
            *final(self) == (Store { transcripts: final(self).transcripts, ..*old(self) }),
            transcripts_of(final(self).transcripts@) == with_unified(
                transcripts_of(old(self).transcripts@),
                msg@,
            ),
    {
        let task = msg.task;
        let ghost model = msg@;
        let ghost before = transcripts_of(self.transcripts@);
        let mut list: Vec<UnifiedMessage> = match self.transcripts.remove(&task) {
            Some(v) => v,
            None => Vec::new(),
        };
        let ghost was = transcript::messages(list@);
        assert(was =~= transcript_at(before, task));
        let mut i: usize = 0;
        while i < list.len() && !text::same(list[i].id.as_str(), msg.id.as_str())
            invariant
                i <= list@.len(),
                was == transcript::messages(list@),
                msg@ == model,
                forall|k: int| 0 <= k < i ==> (#[trigger] was[k]).id != model.id,
            decreases list@.len() - i,
        {
            assert(was[i as int] == list@[i as int]@);
            i += 1;
        }
        proof {
            if i < list@.len() {
                assert(was[i as int] == list@[i as int]@);
            }
            place_of_unique(was, model.id, i as int);
        }
        if i < list.len() {
            list[i] = msg;
        } else {
            list.push(msg);
        }
        assert(transcript::messages(list@) =~= with_message(was, model));
        self.transcripts.insert(task, list);
        assert(transcripts_of(self.transcripts@) =~= with_unified(before, model));
    }

    /// The transcript of a session's task.
    pub open spec fn transcript_of(&self, sid: Seq<char>) -> Seq<UnifiedMessage> {
        if self.session_task@.dom().contains(sid) && self.transcripts@.dom().contains(
            self.session_task@[sid],
        ) {
            self.transcripts@[self.session_task@[sid]]@
        } else {
            Seq::empty()
        }
    }

    /// The transcript of a session's task; nothing for one without.
    pub fn transcript_for_session(&self, sid: &str) -> (r: &[UnifiedMessage])
        ensures
            r@ == self.transcript_of(sid@),
    {
        match self.session_task.get(sid) {
            Some(t) => match self.transcripts.get(t) {
                Some(v) => {
                    return v.as_slice();
                },
                None => {},
            },
            None => {},
        }
        let none: &[UnifiedMessage] = &[];
        assert(none@ =~= Seq::empty());
        none
    }

    fn recompute_totals(&mut self)
        ensures
            *final(self) == (Store { totals: final(self).totals, ..*old(self) }),
            final(self).totals@ == usage_of_all(old(self).messages.entries()),
    {
        let n: usize = self.messages.len();
        let ghost all = self.messages.entries();
        let mut out: Vec<Usage> = Vec::new();
        let mut i: usize = 0;
        assert(all.take(0) =~= Seq::empty());
        while i < n
            invariant
                i <= n == all.len(),
                all == self.messages.entries(),
                out@ == usage_of_all(all.take(i as int)),
            decreases n - i,
        {
            assert(all.take(i + 1).drop_last() =~= all.take(i as int));
            push_usage(&mut out, self.messages.value_at(i));
            i += 1;
        }
        assert(all.take(all.len() as int) =~= all);
        self.totals = out;
    }

    fn recompute_ledger(&mut self, task: TaskId)
        ensures
            *final(self) == (Store { ledgers: final(self).ledgers, ..*old(self) }),
            ledger_map(final(self).ledgers@) == ledger_map(old(self).ledgers@).insert(
                task,
                usage_of_task(old(self).session_task.entries(), old(self).messages@, task),
            ),
    {
        let n: usize = self.session_task.len();
        let ghost all = self.session_task.entries();
        let mut out: Vec<Usage> = Vec::new();
        let mut i: usize = 0;
        assert(all.take(0) =~= Seq::empty());
        while i < n
            invariant
                i <= n == all.len(),
                all == self.session_task.entries(),
                out@ == usage_of_task(all.take(i as int), self.messages@, task),
            decreases n - i,
        {
            assert(all.take(i + 1).drop_last() =~= all.take(i as int));
            let t = *self.session_task.value_at(i);
            if t == task {
                let sid = self.session_task.key_at(i);
                if let Some(entries) = self.messages.get(sid.as_str()) {
                    push_usage(&mut out, entries);
                }
            }
            i += 1;
        }
        assert(all.take(all.len() as int) =~= all);
        self.ledgers.insert(task, out);
        assert(ledger_map(self.ledgers@) =~= ledger_map(old(self).ledgers@).insert(
            task,
            usage_of_task(old(self).session_task.entries(), old(self).messages@, task),
        ));
    }

    fn mirror_lines(&mut self, task: TaskId, entry: &MessageEntry)
        ensures
            *final(self) == (Store { transcripts: final(self).transcripts, ..*old(self) }),
            transcripts_of(final(self).transcripts@) == with_lines(
                transcripts_of(old(self).transcripts@),
                task,
                entry.lines@,
            ),
    {
        let ghost before = transcripts_of(self.transcripts@);
        let mut i: usize = 0;
        assert(entry.lines@.take(0) =~= Seq::empty());
        while i < entry.lines.len()
            invariant
                i <= entry.lines@.len(),
                *self == (Store { transcripts: self.transcripts, ..*old(self) }),
                transcripts_of(self.transcripts@) == with_lines(
                    before,
                    task,
                    entry.lines@.take(i as int),
                ),
            decreases entry.lines@.len() - i,
        {
            assert(entry.lines@.take(i + 1).drop_last() =~= entry.lines@.take(i as int));
            self.push_unified(entry.lines[i].stamp(task));
            i += 1;
        }
        assert(entry.lines@.take(entry.lines@.len() as int) =~= entry.lines@);
    }

    /// Takes in all messages of a session, and mirrors them in the transcript
    /// of its task; a new task is drawn where it has none.
    pub fn set_messages(&mut self, sid: &str, entries: Vec<MessageEntry>)
        ensures
            exists|fresh: TaskId| #[trigger]
                messages_set(*old(self), *final(self), sid@, entries, fresh),
    {
        self.set_messages_as(sid, entries, TaskId::new())
    }

    /// Takes in all messages of a session, and mirrors them in the transcript
    /// of its task: `fresh` where it has none.
    pub fn set_messages_as(&mut self, sid: &str, entries: Vec<MessageEntry>, fresh: TaskId)
        ensures
            messages_set(*old(self), *final(self), sid@, entries, fresh),
    {
        let ghost before = transcripts_of(self.transcripts@);
        if entries.len() == 0 {
            self.messages.insert(sid.to_owned(), entries);
            self.recompute_totals();
            return;
        }
        let task = self.task_for_session_as(sid, fresh);
        let mut i: usize = 0;
        let ghost start = *self;
        assert(entries@.take(0) =~= Seq::empty());
        while i < entries.len()
            invariant
                i <= entries@.len(),
                *self == (Store { transcripts: self.transcripts, ..start }),
                transcripts_of(self.transcripts@) == with_entries(
                    before,
                    task,
                    entries@.take(i as int),
                ),
            decreases entries@.len() - i,
        {
            assert(entries@.take(i + 1).drop_last() =~= entries@.take(i as int));
            self.mirror_lines(task, &entries[i]);
            i += 1;
        }
        assert(entries@.take(entries@.len() as int) =~= entries@);
        self.messages.insert(sid.to_owned(), entries);
        self.recompute_totals();
        self.recompute_ledger(task);
    }
}

/// `now` is `was` after taking in all messages of a session.
pub open spec fn messages_set(
    was: Store,
    now: Store,
    sid: Seq<char>,
    entries: Vec<MessageEntry>,
    fresh: TaskId,
) -> bool {
    let task = was.task_of(sid, fresh);
    &&& now == (Store {
        messages: now.messages,
        totals: now.totals,
        transcripts: now.transcripts,
        ledgers: now.ledgers,
        session_task: now.session_task,
        ..was
    })
    &&& now.messages@ == was.messages@.insert(sid, entries)
    &&& now.totals@ == usage_of_all(now.messages.entries())
    &&& if entries@.len() == 0 {
        now.transcripts == was.transcripts && now.ledgers == was.ledgers && now.session_task
            == was.session_task
    } else {
        &&& now.session_task@ == was.session_task@.insert(sid, task)
        &&& transcripts_of(now.transcripts@) == with_entries(
            transcripts_of(was.transcripts@),
            task,
            entries@,
        )
        &&& ledger_map(now.ledgers@) == ledger_map(was.ledgers@).insert(
            task,
            usage_of_task(now.session_task.entries(), now.messages@, task),
        )
    }
}

impl Store {
    /// The worktree of a session; empty for the repository itself.
    pub open spec fn scope(&self, sid: Seq<char>) -> Seq<char> {
        if self.session_scope@.dom().contains(sid) {
            self.session_scope@[sid]@
        } else {
            Seq::empty()
        }
    }

    /// The worktree of a session; empty for the repository itself.
    pub fn scope_of(&self, sid: &str) -> (r: &str)
        ensures
            r@ == self.scope(sid@),
    {
        match self.session_scope.get(sid) {
            Some(s) => s.as_str(),
            None => {
                proof {
                    reveal_strlit("");
                    assert(""@ =~= Seq::empty());
                }
                ""
            },
        }
    }

    /// Those of some sessions that belong to a scope.
    pub open spec fn in_scope(&self, sids: Seq<Seq<char>>, scope: Seq<char>) -> Seq<Seq<char>>
        decreases sids.len(),
    {
        if sids.len() == 0 {
            Seq::empty()
        } else if self.scope(sids.last()) == scope {
            self.in_scope(sids.drop_last(), scope).push(sids.last())
        } else {
            self.in_scope(sids.drop_last(), scope)
        }
    }

    /// By how recently a session changed, the latest first.
    pub open spec fn recency(&self, sid: Seq<char>) -> order::Key {
        (false, (u64::MAX - self.sessions@[sid].updated) as u64)
    }

    /// By how recently each of some sessions changed.
    pub open spec fn recencies(&self, sids: Seq<Seq<char>>) -> Seq<order::Key> {
        sids.map_values(|sid: Seq<char>| self.recency(sid))
    }

    /// The sessions of a scope, the latest changed first.
    pub fn sessions_in_scope(&self, scope: &str) -> (out: Vec<String>)
        ensures
            order::sorted_by(
                self.in_scope(self.sessions.keys(), scope@),
                self.recencies(self.in_scope(self.sessions.keys(), scope@)),
                text::texts(out@),
            ),
    {
        let n: usize = self.sessions.len();
        let ghost keys = self.sessions.keys();
        let mut ids: Vec<String> = Vec::new();
        let mut ranks: Vec<order::Key> = Vec::new();
        let mut i: usize = 0;
        assert(text::texts(ids@) =~= self.in_scope(keys.take(0), scope@));
        assert(ranks@ =~= self.recencies(text::texts(ids@)));
        while i < n
            invariant
                i <= n == keys.len(),
                n == self.sessions.entries().len(),
                keys == self.sessions.keys(),
                forall|k: int|
                    0 <= k < self.sessions.entries().len() ==> self.sessions@.dom().contains(
                        (#[trigger] self.sessions.entries()[k]).0,
                    ) && self.sessions@[self.sessions.entries()[k].0] == self.sessions.entries()[k].1,
                text::texts(ids@) == self.in_scope(keys.take(i as int), scope@),
                ranks@ == self.recencies(text::texts(ids@)),
            decreases n - i,
        {
            assert(keys.take(i + 1).drop_last() =~= keys.take(i as int));
            let id = self.sessions.key_at(i);
            if text::same(self.scope_of(id.as_str()), scope) {
                let ghost was = ids@;
                let ghost ranked = ranks@;
                ids.push(id.clone());
                ranks.push((false, u64::MAX - self.sessions.value_at(i).updated));
                assert(text::texts(ids@) =~= text::texts(was).push(keys[i as int]));
                assert(ranks@ =~= self.recencies(text::texts(ids@)));
            }
            i += 1;
        }
        assert(keys.take(keys.len() as int) =~= keys);
        assert(ranks@.len() == ids@.len());
        pick(&ids, &ranks)
    }

    /// The place of a session in the review queue: those that wait for a
    /// decision first, then those that have waited longest. Sessions that are
    /// not known come last.
    pub open spec fn rank(&self, sid: Seq<char>) -> order::Key {
        (
            !self.waits(sid),
            if self.sessions@.dom().contains(sid) {
                self.sessions@[sid].updated
            } else {
                u64::MAX
            },
        )
    }

    /// The place of a session in the review queue.
    pub fn review_rank(&self, sid: &str) -> (r: (bool, u64))
        ensures
            r == self.rank(sid@),
    {
        let updated: u64 = match self.sessions.get(sid) {
            Some(s) => s.updated,
            None => u64::MAX,
        };
        (!self.has_pending(sid), updated)
    }

    /// The places of some sessions in the review queue.
    pub open spec fn ranks(&self, sids: Seq<Seq<char>>) -> Seq<order::Key> {
        sids.map_values(|sid: Seq<char>| self.rank(sid))
    }

    /// Some sessions in the order of the review queue.
    pub fn sort_review_sids(&self, sids: Vec<String>) -> (out: Vec<String>)
        ensures
            order::sorted_by(
                text::texts(sids@),
                self.ranks(text::texts(sids@)),
                text::texts(out@),
            ),
    {
        let mut ranks: Vec<order::Key> = Vec::new();
        let mut i: usize = 0;
        while i < sids.len()
            invariant
                i <= sids@.len(),
                ranks@ == self.ranks(text::texts(sids@.take(i as int))),
            decreases sids@.len() - i,
        {
            ranks.push(self.review_rank(sids[i].as_str()));
            assert(ranks@ =~= self.ranks(text::texts(sids@.take(i + 1))));
            i += 1;
        }
        assert(sids@.take(sids@.len() as int) =~= sids@);
        pick(&sids, &ranks)
    }

    /// The best place in the review queue among those of some sessions that
    /// belong to a scope.
    pub open spec fn best_of(&self, sids: Seq<Seq<char>>, scope: Seq<char>) -> Option<order::Key>
        decreases sids.len(),
    {
        if sids.len() == 0 {
            None
        } else {
            let best = self.best_of(sids.drop_last(), scope);
            let sid = sids.last();
            if self.scope(sid) != scope {
                best
            } else {
                match best {
                    Some(b) => if order::key_less(self.rank(sid), b) {
                        Some(self.rank(sid))
                    } else {
                        Some(b)
                    },
                    None => Some(self.rank(sid)),
                }
            }
        }
    }

    /// The place of a scope in the review queue: the best of its sessions
    /// with changes; last where it has none.
    pub open spec fn scope_rank(&self, scope: Seq<char>) -> order::Key {
        match self.best_of(self.diffs.keys(), scope) {
            Some(b) => b,
            None => (true, u64::MAX),
        }
    }

    fn review_scope_rank(&self, scope: &str) -> (r: order::Key)
        ensures
            r == self.scope_rank(scope@),
    {
        let n: usize = self.diffs.len();
        let ghost keys = self.diffs.keys();
        let mut best: Option<order::Key> = None;
        let mut i: usize = 0;
        while i < n
            invariant
                i <= n == keys.len(),
                n == self.diffs.entries().len(),
                keys == self.diffs.keys(),
                best == self.best_of(keys.take(i as int), scope@),
            decreases n - i,
        {
            assert(keys.take(i + 1).drop_last() =~= keys.take(i as int));
            let sid = self.diffs.key_at(i);
            if text::same(self.scope_of(sid.as_str()), scope) {
                let r = self.review_rank(sid.as_str());
                best = match best {
                    Some(b) => if order::less(r, b) {
                        Some(r)
                    } else {
                        Some(b)
                    },
                    None => Some(r),
                };
            }
            i += 1;
        }
        assert(keys.take(keys.len() as int) =~= keys);
        match best {
            Some(b) => b,
            None => (true, u64::MAX),
        }
    }

    /// The places of some scopes in the review queue.
    pub open spec fn scope_ranks(&self, scopes: Seq<Seq<char>>) -> Seq<order::Key> {
        scopes.map_values(|s: Seq<char>| self.scope_rank(s))
    }

    /// Some scopes in the order of the review queue.
    pub fn sort_review_scopes(&self, scopes: Vec<String>) -> (out: Vec<String>)
        ensures
            order::sorted_by(
                text::texts(scopes@),
                self.scope_ranks(text::texts(scopes@)),
                text::texts(out@),
            ),
    {
        let mut ranks: Vec<order::Key> = Vec::new();
        let mut i: usize = 0;
        while i < scopes.len()
            invariant
                i <= scopes@.len(),
                ranks@ == self.scope_ranks(text::texts(scopes@.take(i as int))),
            decreases scopes@.len() - i,
        {
            ranks.push(self.review_scope_rank(scopes[i].as_str()));
            assert(ranks@ =~= self.scope_ranks(text::texts(scopes@.take(i + 1))));
            i += 1;
        }
        assert(scopes@.take(scopes@.len() as int) =~= scopes@);
        pick(&scopes, &ranks)
    }

    /// The state of a worktree on the dashboard, by its main session: it
    /// needs a decision, works, has something to show, or has not begun.
    pub open spec fn status_of(&self, slug: Seq<char>) -> WorktreeStatus {
        if !self.worktrees@.dom().contains(slug) {
            WorktreeStatus::Creating
        } else {
            match text::opt_text(self.worktrees@[slug].session_id) {
                None => WorktreeStatus::Creating,
                Some(sid) => if self.waits(sid) {
                    WorktreeStatus::NeedsYou
                } else if self.works(sid) {
                    WorktreeStatus::Working
                } else if self.messages@.dom().contains(sid) && self.messages@[sid]@.len() > 0 {
                    WorktreeStatus::Done
                } else {
                    WorktreeStatus::Creating
                },
            }
        }
    }

    /// The state of a worktree on the dashboard.
    pub fn worktree_status(&self, slug: &str) -> (s: WorktreeStatus)
        ensures
            s == self.status_of(slug@),
    {
        let sid = match self.worktrees.get(slug) {
            None => {
                return WorktreeStatus::Creating;
            },
            Some(r) => match &r.session_id {
                None => {
                    return WorktreeStatus::Creating;
                },
                Some(sid) => sid.as_str(),
            },
        };
        if self.has_pending(sid) {
            return WorktreeStatus::NeedsYou;
        }
        if self.is_working(sid) {
            return WorktreeStatus::Working;
        }
        match self.messages.get(sid) {
            Some(m) => if m.len() > 0 {
                WorktreeStatus::Done
            } else {
                WorktreeStatus::Creating
            },
            None => WorktreeStatus::Creating,
        }
    }

    fn drop_pending(&mut self, sid: &str)
        ensures
            *final(self) == (Store {
                pending_permissions: final(self).pending_permissions,
                ..*old(self)
            }),
            final(self).pending_permissions@ == without_session(
                old(self).pending_permissions@,
                sid@,
            ),
    {
        let n: usize = self.pending_permissions.len();
        let ghost all = self.pending_permissions.entries();
        let ghost keep = not_asked_by(sid@);
        let mut i: usize = 0;
        let mut seen: usize = 0;
        assert(all.take(0) =~= Seq::empty());
        assert(sorted_map::kept(all.take(0), keep) + all.skip(0) =~= all);
        while seen < n
            invariant
                seen <= n == all.len(),
                keep == not_asked_by(sid@),
                i == sorted_map::kept(all.take(seen as int), keep).len(),
                i <= seen,
                self.pending_permissions.entries() == sorted_map::kept(all.take(seen as int), keep)
                    + all.skip(seen as int),
                *self == (Store { pending_permissions: self.pending_permissions, ..*old(self) }),
            decreases n - seen,
        {
            let ghost kept_so_far = sorted_map::kept(all.take(seen as int), keep);
            assert(all.take(seen + 1).drop_last() =~= all.take(seen as int));
            assert(all.skip(seen as int)[0] == all[seen as int]);
            assert(self.pending_permissions.entries()[i as int] == all[seen as int]);
            if text::same(self.pending_permissions.value_at(i).session_id.as_str(), sid) {
                self.pending_permissions.remove_at(i);
                assert(self.pending_permissions.entries() =~= kept_so_far + all.skip(seen + 1));
            } else {
                i += 1;
                assert(kept_so_far.push(all[seen as int]) + all.skip(seen + 1) =~= kept_so_far
                    + all.skip(seen as int));
            }
            seen += 1;
        }
        assert(all.take(n as int) =~= all);
        assert(all.skip(n as int) =~= Seq::empty());
        assert(self.pending_permissions.entries() =~= sorted_map::kept(all, keep));
        let m: usize = self.pending_permissions.len();
        proof {
            sorted_map::kept_map(all, keep);
            assert(self.pending_permissions@ =~= without_session(
                old(self).pending_permissions@,
                sid@,
            ));
        }
    }

    fn unlink_worktrees(&mut self, sid: &str)
        ensures
            *final(self) == (Store { worktrees: final(self).worktrees, ..*old(self) }),
            final(self).worktrees.keys() == old(self).worktrees.keys(),
            final(self).worktrees@ == old(self).worktrees@.map_values(
                |r: WorktreeRecord| unlinked(r, sid@),
            ),
    {
        let n: usize = self.worktrees.len();
        let ghost was = self.worktrees@;
        let ghost all = self.worktrees.entries();
        let ghost keys = self.worktrees.keys();
        let mut i: usize = 0;
        while i < n
            invariant
                i <= n == all.len(),
                *self == (Store { worktrees: self.worktrees, ..*old(self) }),
                keys == sorted_map::keys_of(all),
                keys.no_duplicates(),
                self.worktrees.keys() == keys,
                self.worktrees.entries().len() == n,
                self.worktrees@.dom() == was.dom(),
                forall|k: int| i <= k < n ==> #[trigger] self.worktrees.entries()[k] == all[k],
                forall|k: int|
                    0 <= k < n ==> was.dom().contains((#[trigger] all[k]).0) && was[all[k].0]
                        == all[k].1,
                forall|k: int|
                    0 <= k < n ==> self.worktrees@[(#[trigger] all[k]).0] == (if k < i {
                        unlinked(all[k].1, sid@)
                    } else {
                        all[k].1
                    }),
            decreases n - i,
        {
            let r = self.worktrees.value_at(i);
            assert(self.worktrees.entries()[i as int] == all[i as int]);
            if is_text(&r.session_id, sid) {
                let ghost rec = *r;
                let now = WorktreeRecord {
                    slug: r.slug.clone(),
                    branch: r.branch.clone(),
                    path: r.path.clone(),
                    status: r.status,
                    session_id: None,
                };
                assert(now == unlinked(rec, sid@));
                let ghost before = self.worktrees@;
                self.worktrees.set_at(i, now);
                assert(self.worktrees@ == before.insert(all[i as int].0, now));
                assert(self.worktrees@.dom() =~= was.dom());
                assert forall|k: int| 0 <= k < n implies self.worktrees@[(#[trigger] all[k]).0] == (
                if k < i + 1 {
                    unlinked(all[k].1, sid@)
                } else {
                    all[k].1
                }) by {
                    assert(keys[k] == all[k].0);
                    assert(keys[i as int] == all[i as int].0);
                }
            }
            i += 1;
        }
        proof {
            let want = was.map_values(|r: WorktreeRecord| unlinked(r, sid@));
            assert forall|q: Seq<char>| was.dom().contains(q) implies self.worktrees@[q] == want[q] by {
                let k = choose|k: int| 0 <= k < n && sorted_map::keys_of(all)[k] == q;
                assert(all[k].0 == q);
            }
            assert(self.worktrees@ =~= want);
        }
    }

    /// Forgets a session and everything mirrored of it; what still comes in
    /// for it will be ignored. Returns the worktree it belonged to, where one
    /// was known.
    pub fn retire_session(&mut self, sid: &str) -> (r: Option<String>)
        ensures
            session_retired(*old(self), *final(self), sid@),
            text::opt_text(r) == (if old(self).session_scope@.dom().contains(sid@) {
                Some(old(self).session_scope@[sid@]@)
            } else {
                None
            }),
    {
        self.sessions.remove(sid);
        self.statuses.remove(sid);
        self.messages.remove(sid);
        self.todos.remove(sid);
        self.diffs.remove(sid);
        let task = match self.session_task.get(sid) {
            Some(t) => Some(*t),
            None => None,
        };
        if let Some(t) = task {
            self.transcripts.remove(&t);
            self.ledgers.remove(&t);
            self.costs.remove(&t);
        }
        self.drop_pending(sid);
        self.recompute_totals();
        if is_text(&self.active_session, sid) {
            self.active_session = first_of(&self.sessions);
        }
        self.unlink_worktrees(sid);
        self.retired_sessions.insert(sid.to_owned(), ());
        self.session_task.remove(sid);
        self.session_scope.remove(sid)
    }
}

fn pick(items: &Vec<String>, ranks: &Vec<order::Key>) -> (out: Vec<String>)
    requires
        items@.len() == ranks@.len(),
    ensures
        order::sorted_by(text::texts(items@), ranks@, text::texts(out@)),
{
    let places = order::stable_order(ranks);
    let ghost p = order::indices(places@);
    let ghost all = text::texts(items@);
    let mut out: Vec<String> = Vec::new();
    let mut i: usize = 0;
    while i < places.len()
        invariant
            i <= places@.len(),
            places@.len() == items@.len(),
            p == order::indices(places@),
            all == text::texts(items@),
            forall|k: int| 0 <= k < places@.len() ==> (#[trigger] places@[k]) < items@.len(),
            out@.len() == i,
            forall|k: int| 0 <= k < i ==> (#[trigger] out@[k])@ == all[p[k]],
        decreases places@.len() - i,
    {
        let k: usize = places[i];
        out.push(items[k].clone());
        i += 1;
    }
    assert(text::texts(out@) =~= Seq::new(p.len(), |i: int| all[p[i]]));
    out
}

/// The permissions that other sessions ask for.
pub open spec fn without_session(
    m: Map<Seq<char>, PendingPermission>,
    sid: Seq<char>,
) -> Map<Seq<char>, PendingPermission> {
    Map::new(
        |k: Seq<char>| m.dom().contains(k) && m[k].session_id@ != sid,
        |k: Seq<char>| m[k],
    )
}

/// `now` is `was` without a session.
pub open spec fn session_retired(was: Store, now: Store, sid: Seq<char>) -> bool {
    &&& now == (Store {
        sessions: now.sessions,
        statuses: now.statuses,
        messages: now.messages,
        todos: now.todos,
        diffs: now.diffs,
        transcripts: now.transcripts,
        ledgers: now.ledgers,
        costs: now.costs,
        pending_permissions: now.pending_permissions,
        totals: now.totals,
        active_session: now.active_session,
        worktrees: now.worktrees,
        retired_sessions: now.retired_sessions,
        session_task: now.session_task,
        session_scope: now.session_scope,
        ..was
    })
    &&& now.sessions@ == was.sessions@.remove(sid)
    &&& now.statuses@ == was.statuses@.remove(sid)
    &&& now.messages@ == was.messages@.remove(sid)
    &&& now.todos@ == was.todos@.remove(sid)
    &&& now.diffs@ == was.diffs@.remove(sid)
    &&& now.session_task@ == was.session_task@.remove(sid)
    &&& now.session_scope@ == was.session_scope@.remove(sid)
    &&& now.retired_sessions@ == was.retired_sessions@.insert(sid, ())
    &&& now.transcripts@ == (if was.session_task@.dom().contains(sid) {
        was.transcripts@.remove(was.session_task@[sid])
    } else {
        was.transcripts@
    })
    &&& now.ledgers@ == (if was.session_task@.dom().contains(sid) {
        was.ledgers@.remove(was.session_task@[sid])
    } else {
        was.ledgers@
    })
    &&& now.costs@ == (if was.session_task@.dom().contains(sid) {
        was.costs@.remove(was.session_task@[sid])
    } else {
        was.costs@
    })
    &&& now.pending_permissions@ == without_session(was.pending_permissions@, sid)
    &&& now.totals@ == usage_of_all(now.messages.entries())
    &&& text::opt_text(now.active_session) == (if text::opt_text(was.active_session) == Some(sid) {
        first_key(now.sessions.keys())
    } else {
        text::opt_text(was.active_session)
    })
    &&& now.worktrees@ == was.worktrees@.map_values(|r: WorktreeRecord| unlinked(r, sid))
}

/// After a session is retired nothing is left of it: it is in no part of the
/// mirror, waits for nothing, works on nothing, and no worktree leads to it.
pub proof fn retired_session_leaves_no_trace(was: Store, now: Store, sid: Seq<char>)
    requires
        session_retired(was, now, sid),
    ensures
        !now.sessions@.dom().contains(sid),
        !now.statuses@.dom().contains(sid),
        !now.messages@.dom().contains(sid),
        !now.todos@.dom().contains(sid),
        !now.diffs@.dom().contains(sid),
        !now.session_task@.dom().contains(sid),
        !now.session_scope@.dom().contains(sid),
        now.retired_sessions@.dom().contains(sid),
        was.session_task@.dom().contains(sid) ==> !now.transcripts@.dom().contains(
            was.session_task@[sid],
        ) && !now.ledgers@.dom().contains(was.session_task@[sid]) && !now.costs@.dom().contains(
            was.session_task@[sid],
        ),
        !now.waits(sid),
        !now.works(sid),
        forall|slug: Seq<char>|
            now.worktrees@.dom().contains(slug) ==> text::opt_text(
                (#[trigger] now.worktrees@[slug]).session_id,
            ) != Some(sid),
{
}

/// Retiring one session leaves what is mirrored of another as it is.
pub proof fn retiring_spares_others(was: Store, now: Store, sid: Seq<char>, other: Seq<char>)
    requires
        session_retired(was, now, sid),
        sid != other,
    ensures
        now.sessions@.dom().contains(other) == was.sessions@.dom().contains(other),
        was.sessions@.dom().contains(other) ==> now.sessions@[other] == was.sessions@[other],
        was.messages@.dom().contains(other) ==> now.messages@.dom().contains(other)
            && now.messages@[other] == was.messages@[other],
        now.scope(other) == was.scope(other),
        now.works(other) == was.works(other),
        now.waits(other) == was.waits(other),
{
    if was.waits(other) {
        let k = choose|k: Seq<char>| #[trigger]
            was.pending_permissions@.dom().contains(k)
                && was.pending_permissions@[k].session_id@ == other;
        assert(now.pending_permissions@.dom().contains(k));
    }
    if now.waits(other) {
        let k = choose|k: Seq<char>| #[trigger]
            now.pending_permissions@.dom().contains(k)
                && now.pending_permissions@[k].session_id@ == other;
        assert(was.pending_permissions@.dom().contains(k));
    }
}

/// Taking in the same message twice is taking it in once.
pub proof fn mirroring_is_idempotent(t: Transcripts, m: MessageModel)
    ensures
        with_unified(with_unified(t, m), m) == with_unified(t, m),
{
    let list = transcript_at(t, m.task);
    let once = with_message(list, m);
    place_of_is_first(list, m.id);
    let p = place_of(list, m.id);
    assert forall|i: int| 0 <= i < p implies (#[trigger] once[i]).id != m.id by {
        assert(once[i] == list[i]);
    }
    assert(once[p] == m);
    place_of_unique(once, m.id, p);
    assert(once.update(p, m) =~= once);
    assert(with_unified(with_unified(t, m), m) =~= with_unified(t, m));
}

/// The messages of a list have different identities.
pub open spec fn distinct_ids(list: Seq<MessageModel>) -> bool {
    forall|i: int, j: int|
        0 <= i < j < list.len() ==> (#[trigger] list[i]).id != (#[trigger] list[j]).id
}

/// Taking in a message keeps identities different.
pub proof fn mirroring_keeps_ids_distinct(list: Seq<MessageModel>, m: MessageModel)
    requires
        distinct_ids(list),
    ensures
        distinct_ids(with_message(list, m)),
        with_message(list, m).contains(m),
{
    place_of_is_first(list, m.id);
    let p = place_of(list, m.id);
    let now = with_message(list, m);
    assert(now[p] == m);
    assert forall|i: int, j: int| 0 <= i < j < now.len() implies (#[trigger] now[i]).id != (
    #[trigger] now[j]).id by {
        if p == list.len() {
            if j < p {
                assert(now[i] == list[i] && now[j] == list[j]);
            } else {
                assert(now[i] == list[i]);
            }
        } else {
            assert(list[p].id == m.id);
            if i != p {
                assert(now[i] == list[i]);
            }
            if j != p {
                assert(now[j] == list[j]);
            }
        }
    }
}

/// The errors that are kept are never more than twenty.
pub proof fn errors_are_bounded(errors: Seq<String>, msg: String)
    ensures
        last_of(errors.push(msg), 20).len() <= 20,
        last_of(errors.push(msg), 20).last() == msg,
{
}

/// The worktree that is active stays a known one when a session is retired.
pub proof fn retiring_keeps_active_known(was: Store, now: Store, sid: Seq<char>)
    requires
        session_retired(was, now, sid),
        was.active_is_known(),
    ensures
        now.active_is_known(),
{
}

/// Every message that tells what it used counts, in order, and no other: the
/// usages of a list are those of its messages.
pub proof fn every_usage_counts(entries: Seq<MessageEntry>)
    ensures
        usage_of(entries) == entries.filter(|e: MessageEntry| e.usage is Some).map_values(
            |e: MessageEntry| e.usage->Some_0,
        ),
    decreases entries.len(),
{
    reveal(Seq::filter);
    let p = |e: MessageEntry| e.usage is Some;
    let f = |e: MessageEntry| e.usage->Some_0;
    if entries.len() > 0 {
        every_usage_counts(entries.drop_last());
        let rest = entries.drop_last().filter(p);
        assert(rest.push(entries.last()).map_values(f) =~= rest.map_values(f).push(
            f(entries.last()),
        ));
    }
    assert(usage_of(entries) =~= entries.filter(p).map_values(f));
}

/// The usages of two lists, one behind the other, are those of the first and
/// then those of the second.
pub proof fn usages_add_up(a: Seq<MessageEntry>, b: Seq<MessageEntry>)
    ensures
        usage_of(a + b) == usage_of(a) + usage_of(b),
    decreases b.len(),
{
    if b.len() == 0 {
        assert(a + b =~= a);
        assert(usage_of(a) + usage_of(b) =~= usage_of(a));
    } else {
        assert((a + b).drop_last() =~= a + b.drop_last());
        usages_add_up(a, b.drop_last());
        assert(usage_of(a + b) =~= usage_of(a) + usage_of(b));
    }
}

/// The totals of some sessions are those of each, one behind the other.
pub proof fn totals_add_up(
    a: Seq<(Seq<char>, Vec<MessageEntry>)>,
    b: Seq<(Seq<char>, Vec<MessageEntry>)>,
    one: (Seq<char>, Vec<MessageEntry>),
)
    ensures
        usage_of_all(a + b) == usage_of_all(a) + usage_of_all(b),
        usage_of_all(seq![one]) == usage_of(one.1@),
        usage_of_all(Seq::empty()) == Seq::<Usage>::empty(),
    decreases b.len(),
{
    assert(seq![one].drop_last() =~= Seq::empty());
    reveal_with_fuel(usage_of_all, 2);
    assert(usage_of_all(seq![one]) =~= usage_of(one.1@));
    if b.len() == 0 {
        assert(a + b =~= a);
        assert(usage_of_all(a) + usage_of_all(b) =~= usage_of_all(a));
    } else {
        assert((a + b).drop_last() =~= a + b.drop_last());
        totals_add_up(a, b.drop_last(), one);
        assert(usage_of_all(a + b) =~= usage_of_all(a) + usage_of_all(b));
    }
}

/// The ledger of a task takes the usages of each of its sessions, and nothing
/// of the sessions of other tasks.
pub proof fn ledgers_add_up(
    a: Seq<(Seq<char>, TaskId)>,
    b: Seq<(Seq<char>, TaskId)>,
    sid: Seq<char>,
    of: TaskId,
    messages: Map<Seq<char>, Vec<MessageEntry>>,
    task: TaskId,
)
    ensures
        usage_of_task(a + b, messages, task) == usage_of_task(a, messages, task) + usage_of_task(
            b,
            messages,
            task,
        ),
        of == task && messages.dom().contains(sid) ==> usage_of_task(
            seq![(sid, of)],
            messages,
            task,
        ) == usage_of(messages[sid]@),
        of != task || !messages.dom().contains(sid) ==> usage_of_task(
            seq![(sid, of)],
            messages,
            task,
        ).len() == 0,
    decreases b.len(),
{
    assert(seq![(sid, of)].drop_last() =~= Seq::empty());
    reveal_with_fuel(usage_of_task, 2);
    if of == task && messages.dom().contains(sid) {
        assert(usage_of_task(seq![(sid, of)], messages, task) =~= usage_of(messages[sid]@));
    }
    if b.len() == 0 {
        assert(a + b =~= a);
        assert(usage_of_task(a, messages, task) + usage_of_task(b, messages, task)
            =~= usage_of_task(a, messages, task));
    } else {
        assert((a + b).drop_last() =~= a + b.drop_last());
        ledgers_add_up(a, b.drop_last(), sid, of, messages, task);
        assert(usage_of_task(a + b, messages, task) =~= usage_of_task(a, messages, task)
            + usage_of_task(b, messages, task));
    }
}

proof fn totals_hold(sessions: Seq<(Seq<char>, Vec<MessageEntry>)>, k: int, i: int)
    requires
        0 <= k < sessions.len(),
        0 <= i < sessions[k].1@.len(),
        sessions[k].1@[i].usage is Some,
    ensures
        usage_of_all(sessions).contains(sessions[k].1@[i].usage->Some_0),
    decreases sessions.len(),
{
    let u = sessions[k].1@[i].usage->Some_0;
    let rest = usage_of_all(sessions.drop_last());
    let more = usage_of(sessions.last().1@);
    if k < sessions.len() - 1 {
        totals_hold(sessions.drop_last(), k, i);
        let at = choose|at: int| 0 <= at < rest.len() && rest[at] == u;
        assert((rest + more)[at] == u);
    } else {
        usages_hold(sessions.last().1@, i);
        let at = choose|at: int| 0 <= at < more.len() && more[at] == u;
        assert((rest + more)[rest.len() + at] == u);
    }
}

proof fn usages_hold(entries: Seq<MessageEntry>, i: int)
    requires
        0 <= i < entries.len(),
        entries[i].usage is Some,
    ensures
        usage_of(entries).contains(entries[i].usage->Some_0),
    decreases entries.len(),
{
    let u = entries[i].usage->Some_0;
    let rest = usage_of(entries.drop_last());
    if i < entries.len() - 1 {
        usages_hold(entries.drop_last(), i);
        let at = choose|at: int| 0 <= at < rest.len() && rest[at] == u;
        assert(usage_of(entries)[at] == u);
    } else {
        assert(usage_of(entries)[rest.len() as int] == u);
    }
}

/// After the messages of a session were taken in, the totals hold what every
/// message of every session used.
pub proof fn totals_count_every_message(
    was: Store,
    now: Store,
    sid: Seq<char>,
    entries: Vec<MessageEntry>,
    fresh: TaskId,
    k: int,
    i: int,
)
    requires
        messages_set(was, now, sid, entries, fresh),
        0 <= k < now.messages.entries().len(),
        0 <= i < now.messages.entries()[k].1@.len(),
        now.messages.entries()[k].1@[i].usage is Some,
    ensures
        now.totals@.contains(now.messages.entries()[k].1@[i].usage->Some_0),
{
    totals_hold(now.messages.entries(), k, i);
}

impl Store {
    proof fn best_is_least(&self, sids: Seq<Seq<char>>, scope: Seq<char>)
        ensures
            match self.best_of(sids, scope) {
                Some(b) => {
                    &&& exists|i: int|
                        0 <= i < sids.len() && self.scope(#[trigger] sids[i]) == scope
                            && self.rank(sids[i]) == b
                    &&& forall|i: int|
                        0 <= i < sids.len() && self.scope(#[trigger] sids[i]) == scope
                            ==> !order::key_less(self.rank(sids[i]), b)
                },
                None => forall|i: int|
                    0 <= i < sids.len() ==> self.scope(#[trigger] sids[i]) != scope,
            },
        decreases sids.len(),
    {
        if sids.len() > 0 {
            let rest = sids.drop_last();
            self.best_is_least(rest, scope);
            let n = sids.len() - 1;
            assert forall|i: int| 0 <= i < n implies #[trigger] rest[i] == sids[i] by {}
            if let Some(b) = self.best_of(rest, scope) {
                let i = choose|i: int|
                    0 <= i < rest.len() && self.scope(#[trigger] rest[i]) == scope && self.rank(
                        rest[i],
                    ) == b;
                assert(sids[i] == rest[i]);
                assert forall|j: int|
                    0 <= j < n && self.scope(#[trigger] sids[j]) == scope implies !order::key_less(
                    self.rank(sids[j]),
                    b,
                ) by {
                    assert(rest[j] == sids[j]);
                }
            } else {
                assert forall|j: int| 0 <= j < n implies self.scope(#[trigger] sids[j]) != scope by {
                    assert(rest[j] == sids[j]);
                }
            }
            assert(sids[n] == sids.last());
        }
    }
}

/// A scope queues by the session of it with changes that has waited longest:
/// one of them has the scope's place, and none of them has a place before it.
/// One that waits for a decision comes before one that does not; otherwise the
/// one that changed earlier does. A scope without changes comes last.
pub proof fn scope_queues_by_its_first_session(s: Store, scope: Seq<char>, sid: Seq<char>)
    requires
        s.diffs.keys().contains(sid),
        s.scope(sid) == scope,
    ensures
        exists|first: Seq<char>| #[trigger]
            s.diffs.keys().contains(first) && s.scope(first) == scope && s.scope_rank(scope) == (
                !s.waits(first),
                if s.sessions@.dom().contains(first) {
                    s.sessions@[first].updated
                } else {
                    u64::MAX
                },
            ),
        s.waits(sid) ==> !s.scope_rank(scope).0,
        !s.waits(sid) && s.scope_rank(scope).0 && s.sessions@.dom().contains(sid) ==> s.scope_rank(
            scope,
        ).1 <= s.sessions@[sid].updated,
        s.waits(sid) && s.sessions@.dom().contains(sid) ==> s.scope_rank(scope).1
            <= s.sessions@[sid].updated,
{
    let keys = s.diffs.keys();
    s.best_is_least(keys, scope);
    let i = choose|i: int| 0 <= i < keys.len() && keys[i] == sid;
    assert(s.scope(keys[i]) == scope);
    let b = s.best_of(keys, scope)->Some_0;
    let k = choose|k: int|
        0 <= k < keys.len() && s.scope(#[trigger] keys[k]) == scope && s.rank(keys[k]) == b;
    assert(keys.contains(keys[k]));
    order::keys_stand_in_line(s.rank(sid), b, b);
}

/// A scope none of whose sessions has changes stands last in the queue.
pub proof fn scope_without_changes_is_last(s: Store, scope: Seq<char>, k: order::Key)
    requires
        forall|sid: Seq<char>| #[trigger] s.diffs.keys().contains(sid) ==> s.scope(sid) != scope,
    ensures
        !order::key_less(s.scope_rank(scope), k) || s.scope_rank(scope) == k,
        s.scope_rank(scope) == (true, u64::MAX),
{
    let keys = s.diffs.keys();
    s.best_is_least(keys, scope);
    if let Some(b) = s.best_of(keys, scope) {
        let i = choose|i: int|
            0 <= i < keys.len() && s.scope(#[trigger] keys[i]) == scope && s.rank(keys[i]) == b;
        assert(keys.contains(keys[i]));
    }
}

/// The review queue: all sessions that wait for a decision come before all
/// that do not, and within each group the one that changed earliest comes
/// first; those that are not known come last.
pub proof fn review_queue_is_by_waiting(s: Store, sids: Seq<Seq<char>>, out: Seq<Seq<char>>)
    requires
        order::sorted_by(sids, s.ranks(sids), out),
    ensures
        out.len() == sids.len(),
        forall|i: int, j: int|
            0 <= i < j < out.len() ==> {
                let a = #[trigger] out[i];
                let b = #[trigger] out[j];
                &&& (exists|k: Seq<char>| #[trigger]
                    s.pending_permissions@.dom().contains(k)
                        && s.pending_permissions@[k].session_id@ == b) ==> (exists|k: Seq<char>|
                 #[trigger]
                    s.pending_permissions@.dom().contains(k)
                        && s.pending_permissions@[k].session_id@ == a)
                &&& s.waits(a) == s.waits(b) && s.sessions@.dom().contains(b)
                    ==> s.sessions@.dom().contains(a) && s.sessions@[a].updated
                    <= s.sessions@[b].updated || s.sessions@[b].updated == u64::MAX
            },
        forall|sid: Seq<char>| #[trigger] out.contains(sid) ==> sids.contains(sid),
{
    order::sorting_keeps_and_orders(sids, s.ranks(sids), out);
    let p = choose|p: Seq<int>|
        {
            &&& p.len() == sids.len()
            &&& #[trigger] p.no_duplicates()
            &&& forall|i: int|
                0 <= i < p.len() ==> 0 <= #[trigger] p[i] < sids.len() && out[i] == sids[p[i]]
            &&& forall|i: int, j: int|
                0 <= i < j < p.len() ==> {
                    let a = s.ranks(sids)[#[trigger] p[i]];
                    let b = s.ranks(sids)[#[trigger] p[j]];
                    &&& a.0 ==> b.0
                    &&& a.0 == b.0 ==> a.1 <= b.1
                    &&& a == b ==> p[i] < p[j]
                }
        };
    assert forall|i: int| 0 <= i < out.len() implies s.ranks(sids)[p[i]] == s.rank(
        #[trigger] out[i],
    ) by {
        assert(0 <= p[i] < sids.len());
    }
    assert forall|i: int, j: int| 0 <= i < j < out.len() implies {
        let a = #[trigger] out[i];
        let b = #[trigger] out[j];
        &&& s.waits(b) ==> s.waits(a)
        &&& s.waits(a) == s.waits(b) ==> s.rank(a).1 <= s.rank(b).1
    } by {
        let x = s.ranks(sids)[p[i]];
        let y = s.ranks(sids)[p[j]];
        assert(x == s.rank(out[i]) && y == s.rank(out[j]));
    }
    assert forall|sid: Seq<char>| #[trigger] out.contains(sid) implies sids.contains(sid) by {
        let i = choose|i: int| 0 <= i < out.len() && out[i] == sid;
        assert(sids[p[i]] == sid);
    }
}

/// A message joins a transcript by its identity: where none there has it, the
/// message stands at the end; otherwise it takes the place of the first that
/// has it. Every other message stays where it is.
pub proof fn message_takes_its_place(list: Seq<MessageModel>, m: MessageModel)
    ensures
        (forall|i: int| 0 <= i < list.len() ==> (#[trigger] list[i]).id != m.id) ==> with_message(
            list,
            m,
        ) == list.push(m),
        forall|at: int|
            0 <= at < list.len() && (#[trigger] list[at]).id == m.id && (forall|i: int|
                0 <= i < at ==> (#[trigger] list[i]).id != m.id) ==> with_message(list, m)
                == list.update(at, m),
{
    place_of_is_first(list, m.id);
    let p = place_of(list, m.id);
    assert forall|at: int|
        0 <= at < list.len() && (#[trigger] list[at]).id == m.id && (forall|i: int|
            0 <= i < at ==> (#[trigger] list[i]).id != m.id) implies with_message(list, m)
        == list.update(at, m) by {
        if p < at {
            assert(list[p].id != m.id);
        }
        if at < p {
            assert(list[at].id != m.id);
        }
    }
}

/// Mirrored lines join the transcript one after the other, those of one
/// message before those of the next.
pub proof fn mirroring_adds_up(
    t: Transcripts,
    task: TaskId,
    a: Seq<crate::session::EntryLine>,
    b: Seq<crate::session::EntryLine>,
    p: Seq<MessageEntry>,
    q: Seq<MessageEntry>,
    e: MessageEntry,
)
    ensures
        with_lines(t, task, a + b) == with_lines(with_lines(t, task, a), task, b),
        with_entries(t, task, p + q) == with_entries(with_entries(t, task, p), task, q),
        with_entries(t, task, seq![e]) == with_lines(t, task, e.lines@),
    decreases b.len() + q.len(),
{
    reveal_with_fuel(with_entries, 2);
    assert(seq![e].drop_last() =~= Seq::empty());
    if b.len() == 0 {
        assert(a + b =~= a);
    } else {
        assert((a + b).drop_last() =~= a + b.drop_last());
        mirroring_adds_up(t, task, a, b.drop_last(), p, q, e);
    }
    if q.len() == 0 {
        assert(p + q =~= p);
    } else {
        assert((p + q).drop_last() =~= p + q.drop_last());
        mirroring_adds_up(t, task, a, b, p, q.drop_last(), e);
    }
}

/// One mirrored line is in its task's transcript, word for word and under the
/// task, and no other task's transcript changes.
pub proof fn one_line_is_mirrored(
    t: Transcripts,
    task: TaskId,
    line: crate::session::EntryLine,
    other: TaskId,
)
    ensures
        ({
            let now = with_lines(t, task, seq![line]);
            &&& now.dom() == t.dom().insert(task)
            &&& other != task && t.dom().contains(other) ==> now[other] == t[other]
            &&& exists|i: int|
                0 <= i < now[task].len() && (#[trigger] now[task][i]).id == line.id@
                    && now[task][i].task == task && now[task][i].role == line.role
                    && now[task][i].text == line.text@ && now[task][i].ts == line.ts
                    && now[task][i].tool == (match line.tool {
                    Some(c) => Some(c.name@),
                    None => None,
                })
            &&& !t.dom().contains(task) ==> now[task].len() == 1
            &&& t.dom().contains(task) ==> t[task].len() <= now[task].len() <= t[task].len() + 1
        }),
{
    reveal_with_fuel(with_lines, 2);
    assert(seq![line].drop_last() =~= Seq::empty());
    let m = line.stamped(task);
    let list = transcript_at(t, task);
    let now = with_lines(t, task, seq![line]);
    assert(now == with_unified(t, m));
    place_of_is_first(list, m.id);
    if place_of(list, m.id) < list.len() {
        assert(now[task][place_of(list, m.id)] == m);
    } else {
        assert(now[task][list.len() as int] == m);
    }
}

/// Messages that were set are those of their session, and no other session's
/// messages, task or transcript changes by it.
pub proof fn setting_messages_spares_others(
    was: Store,
    now: Store,
    sid: Seq<char>,
    entries: Vec<MessageEntry>,
    fresh: TaskId,
    other: Seq<char>,
)
    requires
        messages_set(was, now, sid, entries, fresh),
        other != sid,
    ensures
        now.messages@.dom().contains(sid),
        now.messages@[sid] == entries,
        now.messages@.dom().contains(other) == was.messages@.dom().contains(other),
        was.messages@.dom().contains(other) ==> now.messages@[other] == was.messages@[other],
        now.session_task@.dom().contains(other) == was.session_task@.dom().contains(other),
        was.session_task@.dom().contains(other) ==> now.session_task@[other]
            == was.session_task@[other],
        was.session_task@.dom().contains(sid) ==> now.session_task@.dom().contains(sid)
            && now.session_task@[sid] == was.session_task@[sid],
        entries@.len() > 0 && !was.session_task@.dom().contains(sid)
            ==> now.session_task@.dom().contains(sid) && now.session_task@[sid] == fresh,
        entries@.len() == 0 ==> now.transcripts == was.transcripts && now.session_task
            == was.session_task,
        now.sessions == was.sessions,
        now.costs == was.costs,
{
}

/// The sessions of a scope are the sessions that name it; a session that names
/// none is in the empty scope.
pub proof fn scopes_part_the_sessions(s: Store, sids: Seq<Seq<char>>, scope: Seq<char>)
    ensures
        s.in_scope(sids, scope) == sids.filter(
            |sid: Seq<char>|
                if s.session_scope@.dom().contains(sid) {
                    s.session_scope@[sid]@ == scope
                } else {
                    scope.len() == 0
                },
        ),
    decreases sids.len(),
{
    reveal(Seq::filter);
    let p = |sid: Seq<char>|
        if s.session_scope@.dom().contains(sid) {
            s.session_scope@[sid]@ == scope
        } else {
            scope.len() == 0
        };
    if sids.len() > 0 {
        scopes_part_the_sessions(s, sids.drop_last(), scope);
        let sid = sids.last();
        if !s.session_scope@.dom().contains(sid) && scope.len() == 0 {
            assert(scope =~= Seq::empty());
        }
    }
    assert(s.in_scope(sids, scope) =~= sids.filter(p));
}

/// The sessions of a scope come the latest changed first, all of them and no
/// others.
pub proof fn scope_sessions_are_latest_first(
    s: Store,
    scope: Seq<char>,
    out: Seq<Seq<char>>,
)
    requires
        order::sorted_by(
            s.in_scope(s.sessions.keys(), scope),
            s.recencies(s.in_scope(s.sessions.keys(), scope)),
            out,
        ),
    ensures
        out.len() == s.in_scope(s.sessions.keys(), scope).len(),
        forall|i: int, j: int|
            0 <= i < j < out.len() ==> s.sessions@[#[trigger] out[i]].updated
                >= s.sessions@[#[trigger] out[j]].updated,
        forall|i: int|
            0 <= i < out.len() ==> s.in_scope(s.sessions.keys(), scope).contains(#[trigger] out[i]),
{
    let sids = s.in_scope(s.sessions.keys(), scope);
    let keys = s.recencies(sids);
    order::sorting_keeps_and_orders(sids, keys, out);
    let p = choose|p: Seq<int>|
        {
            &&& p.len() == sids.len()
            &&& #[trigger] p.no_duplicates()
            &&& forall|i: int|
                0 <= i < p.len() ==> 0 <= #[trigger] p[i] < sids.len() && out[i] == sids[p[i]]
            &&& forall|i: int, j: int|
                0 <= i < j < p.len() ==> {
                    let a = keys[#[trigger] p[i]];
                    let b = keys[#[trigger] p[j]];
                    &&& a.0 ==> b.0
                    &&& a.0 == b.0 ==> a.1 <= b.1
                    &&& a == b ==> p[i] < p[j]
                }
        };
    assert forall|i: int| 0 <= i < out.len() implies keys[p[i]] == s.recency(
        #[trigger] out[i],
    ) && sids.contains(out[i]) by {
        assert(0 <= p[i] < sids.len());
        assert(sids[p[i]] == out[i]);
    }
    assert forall|i: int, j: int| 0 <= i < j < out.len() implies s.sessions@[#[trigger] out[i]].updated
        >= s.sessions@[#[trigger] out[j]].updated by {
        let a = keys[p[i]];
        let b = keys[p[j]];
        assert(a == s.recency(out[i]) && b == s.recency(out[j]));
    }
}

/// The review queue of scopes: of two of them, one with a session that waits
/// for a decision comes before one without, and otherwise the one whose first
/// session changed earlier comes first.
pub proof fn review_scopes_queue_by_rank(s: Store, scopes: Seq<Seq<char>>, out: Seq<Seq<char>>)
    requires
        order::sorted_by(scopes, s.scope_ranks(scopes), out),
    ensures
        out.len() == scopes.len(),
        forall|i: int, j: int|
            0 <= i < j < out.len() ==> {
                let a = s.scope_rank(#[trigger] out[i]);
                let b = s.scope_rank(#[trigger] out[j]);
                &&& !b.0 ==> !a.0
                &&& a.0 == b.0 ==> a.1 <= b.1
            },
        forall|i: int| 0 <= i < out.len() ==> scopes.contains(#[trigger] out[i]),
{
    let keys = s.scope_ranks(scopes);
    order::sorting_keeps_and_orders(scopes, keys, out);
    let p = choose|p: Seq<int>|
        {
            &&& p.len() == scopes.len()
            &&& #[trigger] p.no_duplicates()
            &&& forall|i: int|
                0 <= i < p.len() ==> 0 <= #[trigger] p[i] < scopes.len() && out[i] == scopes[p[i]]
            &&& forall|i: int, j: int|
                0 <= i < j < p.len() ==> {
                    let a = keys[#[trigger] p[i]];
                    let b = keys[#[trigger] p[j]];
                    &&& a.0 ==> b.0
                    &&& a.0 == b.0 ==> a.1 <= b.1
                    &&& a == b ==> p[i] < p[j]
                }
        };
    assert forall|i: int| 0 <= i < out.len() implies keys[p[i]] == s.scope_rank(
        #[trigger] out[i],
    ) && scopes.contains(out[i]) by {
        assert(0 <= p[i] < scopes.len());
        assert(scopes[p[i]] == out[i]);
    }
    assert forall|i: int, j: int| 0 <= i < j < out.len() implies {
        let a = s.scope_rank(#[trigger] out[i]);
        let b = s.scope_rank(#[trigger] out[j]);
        &&& !b.0 ==> !a.0
        &&& a.0 == b.0 ==> a.1 <= b.1
    } by {
        let a = keys[p[i]];
        let b = keys[p[j]];
        assert(a == s.scope_rank(out[i]) && b == s.scope_rank(out[j]));
    }
}

/// What a worktree shows: that it is being made as long as it is not known or
/// has no session or that session said nothing yet; that it needs you where a
/// request of its session waits, whatever else is so; that it works where its
/// session is busy or tries again; and otherwise that it is done.
pub proof fn worktree_shows_its_session(s: Store, slug: Seq<char>, sid: String)
    ensures
        !s.worktrees@.dom().contains(slug) ==> s.status_of(slug) == WorktreeStatus::Creating,
        s.worktrees@.dom().contains(slug) && s.worktrees@[slug].session_id is None ==> s.status_of(
            slug,
        ) == WorktreeStatus::Creating,
        s.worktrees@.dom().contains(slug) && s.worktrees@[slug].session_id == Some(sid) ==> {
            let asks = exists|k: Seq<char>| #[trigger]
                s.pending_permissions@.dom().contains(k)
                    && s.pending_permissions@[k].session_id@ == sid@;
            let works = s.statuses@.dom().contains(sid@) && !(s.statuses@[sid@] is Idle);
            let spoke = s.messages@.dom().contains(sid@) && s.messages@[sid@]@.len() > 0;
            &&& asks ==> s.status_of(slug) == WorktreeStatus::NeedsYou
            &&& !asks && works ==> s.status_of(slug) == WorktreeStatus::Working
            &&& !asks && !works && spoke ==> s.status_of(slug) == WorktreeStatus::Done
            &&& !asks && !works && !spoke ==> s.status_of(slug) == WorktreeStatus::Creating
        },
{
}

/// Of a list that is cut to its last items, the last ones stay in order, as
/// many as there are or as may stay.
pub proof fn the_last_ones_stay<T>(s: Seq<T>, n: int)
    requires
        0 <= n,
    ensures
        last_of(s, n).len() == if s.len() <= n {
            s.len() as int
        } else {
            n
        },
        forall|i: int|
            0 <= i < last_of(s, n).len() ==> #[trigger] last_of(s, n)[i] == s[s.len() - last_of(
                s,
                n,
            ).len() + i],
{
}

/// A session reads the transcript of its task, and an unlinked one reads none.
pub proof fn session_reads_its_tasks_transcript(s: Store, sid: Seq<char>, task: TaskId)
    ensures
        s.session_task@.dom().contains(sid) && s.session_task@[sid] == task
            && s.transcripts@.dom().contains(task) ==> s.transcript_of(sid)
            == s.transcripts@[task]@,
        !s.session_task@.dom().contains(sid) ==> s.transcript_of(sid).len() == 0,
{
}

/// A request that waits makes its session wait, and no other session.
pub proof fn requests_make_sessions_wait(s: Store, k: Seq<char>, sid: Seq<char>)
    ensures
        s.pending_permissions@.dom().contains(k) ==> s.waits(
            s.pending_permissions@[k].session_id@,
        ),
        (forall|k: Seq<char>| #[trigger]
            s.pending_permissions@.dom().contains(k) ==> s.pending_permissions@[k].session_id@
                != sid) ==> !s.waits(sid),
        s.works(sid) <==> s.statuses@.dom().contains(sid) && (s.statuses@[sid] is Busy
            || s.statuses@[sid] is Retry),
{
}

/// After the messages of a session were taken in, the account of its task holds
/// what every message of every session of that task used.
pub proof fn ledger_counts_every_message(
    was: Store,
    now: Store,
    sid: Seq<char>,
    entries: Vec<MessageEntry>,
    fresh: TaskId,
    k: int,
    i: int,
)
    requires
        messages_set(was, now, sid, entries, fresh),
        entries@.len() > 0,
        0 <= k < now.session_task.entries().len(),
        now.session_task.entries()[k].1 == now.session_task@[sid],
        now.messages@.dom().contains(now.session_task.entries()[k].0),
        0 <= i < now.messages@[now.session_task.entries()[k].0]@.len(),
        now.messages@[now.session_task.entries()[k].0]@[i].usage is Some,
    ensures
        now.ledgers@.dom().contains(now.session_task@[sid]),
        now.ledgers@[now.session_task@[sid]]@.contains(
            now.messages@[now.session_task.entries()[k].0]@[i].usage->Some_0,
        ),
{
    let task = was.task_of(sid, fresh);
    assert(now.session_task@[sid] == task);
    let all = ledger_map(now.ledgers@);
    assert(all.dom().contains(task));
    assert(all[task] == usage_of_task(now.session_task.entries(), now.messages@, task));
    ledger_holds(now.session_task.entries(), now.messages@, task, k, i);
}

proof fn ledger_holds(
    links: Seq<(Seq<char>, TaskId)>,
    messages: Map<Seq<char>, Vec<MessageEntry>>,
    task: TaskId,
    k: int,
    i: int,
)
    requires
        0 <= k < links.len(),
        links[k].1 == task,
        messages.dom().contains(links[k].0),
        0 <= i < messages[links[k].0]@.len(),
        messages[links[k].0]@[i].usage is Some,
    ensures
        usage_of_task(links, messages, task).contains(messages[links[k].0]@[i].usage->Some_0),
    decreases links.len(),
{
    let u = messages[links[k].0]@[i].usage->Some_0;
    let rest = usage_of_task(links.drop_last(), messages, task);
    let all = usage_of_task(links, messages, task);
    if k < links.len() - 1 {
        ledger_holds(links.drop_last(), messages, task, k, i);
        let at = choose|at: int| 0 <= at < rest.len() && rest[at] == u;
        assert(all[at] == u);
    } else {
        let more = usage_of(messages[links[k].0]@);
        usages_hold(messages[links[k].0]@, i);
        let at = choose|at: int| 0 <= at < more.len() && more[at] == u;
        assert(all[rest.len() + at] == u);
    }
}

/// A session that was retired is not the active one: where it was, the first
/// of those that are left is, and no other choice changes.
pub proof fn retired_session_is_not_active(was: Store, now: Store, sid: Seq<char>)
    requires
        session_retired(was, now, sid),
        forall|k: int|
            0 <= k < now.sessions.keys().len() ==> now.sessions@.dom().contains(
                #[trigger] now.sessions.keys()[k],
            ),
    ensures
        now.active_session matches Some(x) ==> x@ != sid,
        (was.active_session matches Some(x) && x@ == sid) && now.sessions.keys().len() > 0 ==> (
        now.active_session matches Some(y) && y@ == now.sessions.keys()[0]),
        (was.active_session matches Some(x) && x@ == sid) && now.sessions.keys().len() == 0
            ==> now.active_session is None,
        (was.active_session matches Some(x) && x@ != sid) ==> (now.active_session matches Some(y)
            && y@ == was.active_session->Some_0@),
        was.active_session is None ==> now.active_session is None,
{
}

/// Retiring a session leaves the worktrees of others as they were, takes only
/// the link from its own, and takes only its own task's transcript, account
/// and cost.
pub proof fn retiring_spares_worktrees_and_tasks(
    was: Store,
    now: Store,
    sid: Seq<char>,
    slug: Seq<char>,
    task: TaskId,
)
    requires
        session_retired(was, now, sid),
    ensures
        now.worktrees@.dom() == was.worktrees@.dom(),
        was.worktrees@.dom().contains(slug) ==> {
            let a = was.worktrees@[slug];
            let b = now.worktrees@[slug];
            &&& (a.session_id matches Some(x) && x@ == sid) ==> b.session_id is None && b.path
                == a.path && b.branch == a.branch && b.slug == a.slug && b.status == a.status
            &&& !(a.session_id matches Some(x) && x@ == sid) ==> b == a
        },
        (was.session_task@.dom().contains(sid) ==> was.session_task@[sid] != task) ==> {
            &&& now.transcripts@.dom().contains(task) == was.transcripts@.dom().contains(task)
            &&& was.transcripts@.dom().contains(task) ==> now.transcripts@[task]
                == was.transcripts@[task]
            &&& now.ledgers@.dom().contains(task) == was.ledgers@.dom().contains(task)
            &&& was.costs@.dom().contains(task) ==> now.costs@.dom().contains(task)
                && now.costs@[task] == was.costs@[task]
        },
        now.active_worktree == was.active_worktree,
        now.errors == was.errors,
        now.blocked == was.blocked,
{
    assert(now.worktrees@.dom() =~= was.worktrees@.dom());
}

} // verus!
