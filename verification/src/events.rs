//! What the agent server reports while it works, and what it changes in the
//! mirror.
use crate::session::{MessageEntry, PendingPermission, Session, SessionStatus, Todo, Usage};
use crate::store;
use crate::store::Store;
use crate::text;
use crate::transcript::TaskId;
use vstd::prelude::*;

verus! {

/// One report of the server.
pub enum Event {
    SessionCreated { session_id: String, session: Session },
    SessionDeleted { session_id: String },
    SessionStatus { session_id: String, status: SessionStatus },
    SessionIdle { session_id: String },
    PermissionAsked(PendingPermission),
    PermissionReplied { session_id: String, request_id: String },
    /// A message is new or has changed; its lines are reported elsewhere.
    MessageUpdated { session_id: String, id: String, usage: Option<Usage> },
    TodoUpdated { session_id: String, todos: Vec<Todo> },
    /// A report about no session.
    Other,
}

impl Event {
    /// The session that a report is about.
    pub open spec fn session(self) -> Option<Seq<char>> {
        match self {
            Event::SessionCreated { session_id, .. } => Some(session_id@),
            Event::SessionDeleted { session_id } => Some(session_id@),
            Event::SessionStatus { session_id, .. } => Some(session_id@),
            Event::SessionIdle { session_id } => Some(session_id@),
            Event::PermissionAsked(p) => Some(p.session_id@),
            Event::PermissionReplied { session_id, .. } => Some(session_id@),
            Event::MessageUpdated { session_id, .. } => Some(session_id@),
            Event::TodoUpdated { session_id, .. } => Some(session_id@),
            Event::Other => None,
        }
    }
}

/// The session that a report is about.
pub fn event_session_id(ev: &Event) -> (r: Option<&str>)
    ensures
        match r {
            Some(sid) => ev.session() == Some(sid@),
            None => ev.session() is None,
        },
{
    match ev {
        Event::SessionCreated { session_id, .. } => Some(session_id.as_str()),
        Event::SessionDeleted { session_id } => Some(session_id.as_str()),
        Event::SessionStatus { session_id, .. } => Some(session_id.as_str()),
        Event::SessionIdle { session_id } => Some(session_id.as_str()),
        Event::PermissionAsked(p) => Some(p.session_id.as_str()),
        Event::PermissionReplied { session_id, .. } => Some(session_id.as_str()),
        Event::MessageUpdated { session_id, .. } => Some(session_id.as_str()),
        Event::TodoUpdated { session_id, .. } => Some(session_id.as_str()),
        Event::Other => None,
    }
}

/// The messages of a session.
pub open spec fn entries_of(
    messages: Map<Seq<char>, Vec<MessageEntry>>,
    sid: Seq<char>,
) -> Seq<MessageEntry> {
    if messages.dom().contains(sid) {
        messages[sid]@
    } else {
        Seq::empty()
    }
}

/// `p` is the place of the first message with an identity, or the end.
pub open spec fn first_with(entries: Seq<MessageEntry>, id: Seq<char>, p: int) -> bool {
    &&& 0 <= p <= entries.len()
    &&& forall|i: int| 0 <= i < p ==> (#[trigger] entries[i]).id@ != id
    &&& p < entries.len() ==> entries[p].id@ == id
}

/// `now` is `was` after a report about the message `id`: the message keeps
/// its place and its lines, and a new one comes last, without lines.
pub open spec fn info_taken(
    was: Seq<MessageEntry>,
    now: Seq<MessageEntry>,
    id: Seq<char>,
    usage: Option<Usage>,
) -> bool {
    exists|p: int|
        {
            &&& #[trigger] first_with(was, id, p)
            &&& p < now.len()
            &&& now.len() == (if p < was.len() {
                was.len()
            } else {
                was.len() + 1
            })
            &&& forall|i: int| 0 <= i < was.len() && i != p ==> #[trigger] now[i] == was[i]
            &&& now[p].id@ == id
            &&& now[p].usage == usage
            &&& p < was.len() ==> now[p].lines == was[p].lines
            &&& p == was.len() ==> now[p].lines@.len() == 0
        }
}

fn take_info(entries: Vec<MessageEntry>, id: String, usage: Option<Usage>) -> (out: Vec<
    MessageEntry,
>)
    ensures
        info_taken(entries@, out@, id@, usage),
{
    let ghost was = entries@;
    let mut entries = entries;
    let mut p: usize = 0;
    while p < entries.len() && !text::same(entries[p].id.as_str(), id.as_str())
        invariant
            p <= entries@.len(),
            entries@ == was,
            forall|i: int| 0 <= i < p ==> (#[trigger] was[i]).id@ != id@,
        decreases entries@.len() - p,
    {
        p += 1;
    }
    assert(first_with(was, id@, p as int));
    if p < entries.len() {
        let e = entries.remove(p);
        entries.insert(p, MessageEntry { id: e.id, lines: e.lines, usage });
        assert forall|i: int| 0 <= i < was.len() && i != p implies #[trigger] entries@[i]
            == was[i] by {
            if i < p {
                assert(was.remove(p as int)[i] == was[i]);
            } else {
                assert(was.remove(p as int)[i - 1] == was[i]);
            }
        }
    } else {
        entries.push(MessageEntry { id, lines: Vec::new(), usage });
    }
    entries
}

/// `now` is `was` after a report.
pub open spec fn event_applied(was: Store, now: Store, ev: Event, fresh: TaskId) -> bool {
    if ev.session() is Some && was.retired_sessions@.dom().contains(ev.session()->0) {
        now == was
    } else {
        match ev {
            Event::SessionCreated { session_id, session } => {
                &&& now == (Store {
                    sessions: now.sessions,
                    active_session: now.active_session,
                    ..was
                })
                &&& now.sessions@ == was.sessions@.insert(session_id@, session)
                &&& text::opt_text(now.active_session) == (match was.active_session {
                    Some(a) => Some(a@),
                    None => Some(session_id@),
                })
            },
            Event::SessionDeleted { session_id } => store::session_retired(was, now, session_id@),
            Event::SessionStatus { session_id, status } => {
                &&& now == (Store { statuses: now.statuses, ..was })
                &&& now.statuses@ == was.statuses@.insert(session_id@, status)
            },
            Event::SessionIdle { session_id } => {
                &&& now == (Store { statuses: now.statuses, ..was })
                &&& now.statuses@ == was.statuses@.insert(session_id@, SessionStatus::Idle)
            },
            Event::PermissionAsked(p) => {
                &&& now == (Store { pending_permissions: now.pending_permissions, ..was })
                &&& now.pending_permissions@ == was.pending_permissions@.insert(
                    p.permission_id@,
                    p,
                )
            },
            Event::PermissionReplied { request_id, .. } => {
                &&& now == (Store { pending_permissions: now.pending_permissions, ..was })
                &&& now.pending_permissions@ == was.pending_permissions@.remove(request_id@)
            },
            Event::MessageUpdated { session_id, id, usage } => exists|entries: Vec<MessageEntry>|
                {
                    &&& #[trigger] store::messages_set(was, now, session_id@, entries, fresh)
                    &&& info_taken(
                        entries_of(was.messages@, session_id@),
                        entries@,
                        id@,
                        usage,
                    )
                },
            Event::TodoUpdated { session_id, todos } => {
                &&& now == (Store { todos: now.todos, ..was })
                &&& now.todos@ == was.todos@.insert(session_id@, todos)
            },
            Event::Other => now == was,
        }
    }
}

/// `now` is `was` after a server listed a session that it serves for a
/// scope: what is known of its place stays, and nothing comes back of a
/// retired one.
pub open spec fn session_listed(
    was: Store,
    now: Store,
    scope: Seq<char>,
    sid: Seq<char>,
    session: Session,
) -> bool {
    if was.retired_sessions@.dom().contains(sid) {
        now == was
    } else {
        &&& now == (Store {
            sessions: now.sessions,
            active_session: now.active_session,
            session_scope: now.session_scope,
            ..was
        })
        &&& now.sessions@ == was.sessions@.insert(sid, session)
        &&& text::opt_text(now.active_session) == (match was.active_session {
            Some(a) => Some(a@),
            None => Some(sid),
        })
        &&& if scope.len() == 0 || was.session_scope@.dom().contains(sid) {
            now.session_scope@ == was.session_scope@
        } else {
            &&& now.session_scope@.dom() == was.session_scope@.dom().insert(sid)
            &&& now.session_scope@[sid]@ == scope
            &&& forall|k: Seq<char>|
                k != sid && was.session_scope@.dom().contains(k) ==> #[trigger] now.session_scope@[k]
                    == was.session_scope@[k]
        }
    }
}

impl Store {
    fn is_retired_event(&self, ev: &Event) -> (r: bool)
        ensures
            r == (ev.session() is Some && self.retired_sessions@.dom().contains(ev.session()->0)),
    {
        match event_session_id(ev) {
            Some(sid) => self.retired_sessions.contains_key(sid),
            None => false,
        }
    }

    /// Takes in a report; nothing of a retired session comes back.
    pub fn apply_event(&mut self, ev: Event)
        ensures
            exists|fresh: TaskId| #[trigger] event_applied(*old(self), *final(self), ev, fresh),
    {
        let fresh = TaskId::new();
        self.apply_event_as(ev, fresh);
        assert(event_applied(*old(self), *self, ev, fresh));
    }

    /// Takes in a report; `fresh` is the task of a session that has none yet.
    pub fn apply_event_as(&mut self, ev: Event, fresh: TaskId)
        ensures
            event_applied(*old(self), *final(self), ev, fresh),
    {
        if self.is_retired_event(&ev) {
            return;
        }
        match ev {
            Event::SessionCreated { session_id, session } => {
                if self.active_session.is_none() {
                    self.active_session = Some(session_id.clone());
                }
                self.sessions.insert(session_id, session);
            },
            Event::SessionDeleted { session_id } => {
                self.retire_session(session_id.as_str());
            },
            Event::SessionStatus { session_id, status } => {
                self.statuses.insert(session_id, status);
            },
            Event::SessionIdle { session_id } => {
                self.statuses.insert(session_id, SessionStatus::Idle);
            },
            Event::PermissionAsked(p) => {
                self.pending_permissions.insert(p.permission_id.clone(), p);
            },
            Event::PermissionReplied { request_id, .. } => {
                self.pending_permissions.remove(request_id.as_str());
            },
            Event::MessageUpdated { session_id, id, usage } => {
                let known = match self.messages.remove(session_id.as_str()) {
                    Some(entries) => entries,
                    None => Vec::new(),
                };
                assert(known@ == entries_of(old(self).messages@, session_id@));
                let entries = take_info(known, id, usage);
                let ghost before = *self;
                self.set_messages_as(session_id.as_str(), entries, fresh);
                proof {
                    assert(old(self).messages@.remove(session_id@).insert(session_id@, entries)
                        =~= old(self).messages@.insert(session_id@, entries));
                    assert(store::messages_set(before, *self, session_id@, entries, fresh));
                    assert(store::messages_set(*old(self), *self, session_id@, entries, fresh));
                }
            },
            Event::TodoUpdated { session_id, todos } => {
                self.todos.insert(session_id, todos);
            },
            Event::Other => {},
        }
    }

    /// Takes in a session that a server lists for a scope.
    pub fn on_listed(&mut self, scope: &str, sid: String, session: Session)
        ensures
            session_listed(*old(self), *final(self), scope@, sid@, session),
    {
        if self.retired_sessions.contains_key(sid.as_str()) {
            return;
        }
        if !scope.is_empty() && !self.session_scope.contains_key(sid.as_str()) {
            self.session_scope.insert(sid.clone(), scope.to_owned());
            assert(self.session_scope@.dom() =~= old(self).session_scope@.dom().insert(sid@));
        }
        if self.active_session.is_none() {
            self.active_session = Some(sid.clone());
        }
        self.sessions.insert(sid, session);
    }
}

/// Nothing of a session is mirrored.
pub open spec fn no_trace(s: Store, sid: Seq<char>) -> bool {
    &&& !s.sessions@.dom().contains(sid)
    &&& !s.statuses@.dom().contains(sid)
    &&& !s.messages@.dom().contains(sid)
    &&& !s.todos@.dom().contains(sid)
    &&& !s.waits(sid)
}

/// What still comes in for a retired session brings nothing of it back,
/// nor does what comes in for another.
pub proof fn retired_session_stays_gone(
    was: Store,
    now: Store,
    ev: Event,
    fresh: TaskId,
    sid: Seq<char>,
)
    requires
        event_applied(was, now, ev, fresh),
        was.retired_sessions@.dom().contains(sid),
        no_trace(was, sid),
    ensures
        now.retired_sessions@.dom().contains(sid),
        no_trace(now, sid),
        ev.session() == Some(sid) ==> now == was,
{
    if now.waits(sid) {
        let k = choose|k: Seq<char>| #[trigger]
            now.pending_permissions@.dom().contains(k)
                && now.pending_permissions@[k].session_id@ == sid;
        assert(was.pending_permissions@.dom().contains(k) && was.pending_permissions@[k]
            == now.pending_permissions@[k]);
    }
}

/// A session that was retired, or reported as deleted, is gone for good.
pub proof fn retiring_is_for_good(was: Store, now: Store, sid: Seq<char>)
    requires
        store::session_retired(was, now, sid),
    ensures
        now.retired_sessions@.dom().contains(sid),
        no_trace(now, sid),
{
    store::retired_session_leaves_no_trace(was, now, sid);
}

/// Two reports about the same message leave one message.
pub proof fn reporting_again_adds_none(
    was: Seq<MessageEntry>,
    once: Seq<MessageEntry>,
    twice: Seq<MessageEntry>,
    id: Seq<char>,
    first: Option<Usage>,
    second: Option<Usage>,
)
    requires
        info_taken(was, once, id, first),
        info_taken(once, twice, id, second),
    ensures
        twice.len() == once.len(),
        info_taken(was, twice, id, second),
{
    let p = choose|p: int|
        {
            &&& #[trigger] first_with(was, id, p)
            &&& p < once.len()
            &&& once.len() == (if p < was.len() {
                was.len()
            } else {
                was.len() + 1
            })
            &&& forall|i: int| 0 <= i < was.len() && i != p ==> #[trigger] once[i] == was[i]
            &&& once[p].id@ == id
            &&& once[p].usage == first
            &&& p < was.len() ==> once[p].lines == was[p].lines
            &&& p == was.len() ==> once[p].lines@.len() == 0
        };
    let q = choose|q: int|
        {
            &&& #[trigger] first_with(once, id, q)
            &&& q < twice.len()
            &&& twice.len() == (if q < once.len() {
                once.len()
            } else {
                once.len() + 1
            })
            &&& forall|i: int| 0 <= i < once.len() && i != q ==> #[trigger] twice[i] == once[i]
            &&& twice[q].id@ == id
            &&& twice[q].usage == second
            &&& q < once.len() ==> twice[q].lines == once[q].lines
            &&& q == once.len() ==> twice[q].lines@.len() == 0
        };
    assert forall|i: int| 0 <= i < p implies (#[trigger] once[i]).id@ != id by {
        assert(once[i] == was[i]);
    }
    assert(q == p) by {
        if q < p {
            assert(once[q].id@ != id);
        } else if p < q {
            assert(once[p].id@ != id);
        }
    }
    assert forall|i: int| 0 <= i < was.len() && i != p implies #[trigger] twice[i] == was[i] by {
        assert(once[i] == was[i]);
    }
    assert(first_with(was, id, p));
}

/// What an event does to the session it is of, where that was not retired: a
/// status is the session's from then on, idle is one, a request waits until it
/// is answered, a plan takes the place of the last one. No event touches what
/// belongs to another session.
pub proof fn events_change_their_session(
    was: Store,
    now: Store,
    ev: Event,
    fresh: TaskId,
    other: Seq<char>,
)
    requires
        event_applied(was, now, ev, fresh),
        ev.session() matches Some(s) ==> !was.retired_sessions@.dom().contains(s) && s != other,
    ensures
        ev matches Event::SessionStatus { session_id, status } ==> now.statuses@.dom().contains(
            session_id@,
        ) && now.statuses@[session_id@] == status,
        ev matches Event::SessionIdle { session_id } ==> now.statuses@.dom().contains(session_id@)
            && now.statuses@[session_id@] is Idle && !now.works(session_id@),
        ev matches Event::PermissionAsked(p) ==> now.waits(p.session_id@)
            && now.pending_permissions@[p.permission_id@] == p,
        ev matches Event::PermissionReplied { request_id, .. }
            ==> !now.pending_permissions@.dom().contains(request_id@),
        ev matches Event::TodoUpdated { session_id, todos } ==> now.todos@[session_id@] == todos,
        ev matches Event::SessionCreated { session_id, session } ==> now.sessions@.dom().contains(
            session_id@,
        ) && now.sessions@[session_id@] == session && now.active_session is Some,
        ev matches Event::SessionDeleted { session_id } ==> !now.sessions@.dom().contains(
            session_id@,
        ) && now.retired_sessions@.dom().contains(session_id@),
        ev is Other ==> now == was,
        now.sessions@.dom().contains(other) == was.sessions@.dom().contains(other),
        was.sessions@.dom().contains(other) ==> now.sessions@[other] == was.sessions@[other],
        now.works(other) == was.works(other),
        now.messages@.dom().contains(other) == was.messages@.dom().contains(other),
        was.messages@.dom().contains(other) ==> now.messages@[other] == was.messages@[other],
{
    if let Event::PermissionAsked(p) = ev {
        assert(now.pending_permissions@.dom().contains(p.permission_id@));
    }
    if let Event::SessionDeleted { session_id } = ev {
        store::retiring_spares_others(was, now, session_id@, other);
    }
    if let Event::MessageUpdated { session_id, id, usage } = ev {
        let entries = choose|entries: Vec<MessageEntry>|
            {
                &&& #[trigger] store::messages_set(was, now, session_id@, entries, fresh)
                &&& info_taken(entries_of(was.messages@, session_id@), entries@, id@, usage)
            };
        store::setting_messages_spares_others(was, now, session_id@, entries, fresh, other);
    }
}

/// A message that was updated is among the messages of its session, with what
/// it used, and the totals count it; at most one message came in.
pub proof fn updated_message_is_counted(
    was: Store,
    now: Store,
    session_id: String,
    id: String,
    usage: Usage,
    fresh: TaskId,
)
    requires
        event_applied(
            was,
            now,
            Event::MessageUpdated { session_id, id, usage: Some(usage) },
            fresh,
        ),
        !was.retired_sessions@.dom().contains(session_id@),
    ensures
        now.messages@.dom().contains(session_id@),
        exists|p: int|
            0 <= p < now.messages@[session_id@]@.len() && (
            #[trigger] now.messages@[session_id@]@[p]).id@ == id@
                && now.messages@[session_id@]@[p].usage == Some(usage),
        now.messages@[session_id@]@.len() <= entries_of(was.messages@, session_id@).len() + 1,
        now.messages@[session_id@]@.len() >= entries_of(was.messages@, session_id@).len(),
        now.totals@.contains(usage),
{
    let entries = choose|entries: Vec<MessageEntry>|
        {
            &&& #[trigger] store::messages_set(was, now, session_id@, entries, fresh)
            &&& info_taken(
                entries_of(was.messages@, session_id@),
                entries@,
                id@,
                Some(usage),
            )
        };
    let before = entries_of(was.messages@, session_id@);
    let p = choose|p: int|
        {
            &&& #[trigger] first_with(before, id@, p)
            &&& p < entries@.len()
            &&& entries@.len() == (if p < before.len() {
                before.len()
            } else {
                before.len() + 1
            })
            &&& forall|i: int| 0 <= i < before.len() && i != p ==> #[trigger] entries@[i]
                == before[i]
            &&& entries@[p].id@ == id@
            &&& entries@[p].usage == Some(usage)
            &&& p < before.len() ==> entries@[p].lines == before[p].lines
            &&& p == before.len() ==> entries@[p].lines@.len() == 0
        };
    assert(now.messages@[session_id@] == entries);
    assert(now.messages@[session_id@]@[p].usage == Some(usage));
    let all = now.messages.entries();
    let keys = crate::sorted_map::keys_of(all);
    assert(now.messages@ == crate::sorted_map::map_of(all));
    assert(now.messages@.dom().contains(session_id@));
    assert(crate::sorted_map::map_of(all).dom().contains(session_id@));
    assert(keys.contains(session_id@));
    let k = keys.index_of(session_id@);
    assert(all[k].1 == entries);
    store::totals_count_every_message(was, now, session_id@, entries, fresh, k, p);
}

/// A session that is listed is known from then on, in the scope it is listed
/// in unless it has one, and becomes active only where none is.
pub proof fn listed_session_is_known(
    was: Store,
    now: Store,
    scope: Seq<char>,
    sid: Seq<char>,
    session: Session,
)
    requires
        session_listed(was, now, scope, sid, session),
        !was.retired_sessions@.dom().contains(sid),
    ensures
        now.sessions@.dom().contains(sid) && now.sessions@[sid] == session,
        was.active_session matches Some(a) ==> (now.active_session matches Some(b) && a@ == b@),
        was.active_session is None ==> (now.active_session matches Some(b) && b@ == sid),
        was.session_scope@.dom().contains(sid) ==> now.scope(sid) == was.scope(sid),
        !was.session_scope@.dom().contains(sid) ==> now.scope(sid) == scope,
        now.messages == was.messages,
{
    if !was.session_scope@.dom().contains(sid) && scope.len() == 0 {
        assert(scope =~= Seq::empty());
    }
}

/// A message that is reported again keeps what it says and takes the new
/// usage; one that is new stands last and says nothing yet. No other message
/// changes.
pub proof fn reports_touch_one_message(
    was: Seq<MessageEntry>,
    now: Seq<MessageEntry>,
    id: Seq<char>,
    usage: Option<Usage>,
)
    requires
        info_taken(was, now, id, usage),
    ensures
        (forall|i: int| 0 <= i < was.len() ==> (#[trigger] was[i]).id@ != id) ==> {
            &&& now.len() == was.len() + 1
            &&& now.take(was.len() as int) == was
            &&& now.last().id@ == id
            &&& now.last().usage == usage
            &&& now.last().lines@.len() == 0
        },
        (exists|i: int| 0 <= i < was.len() && (#[trigger] was[i]).id@ == id) ==> {
            &&& now.len() == was.len()
            &&& forall|i: int|
                0 <= i < was.len() ==> (#[trigger] now[i]).lines == was[i].lines || now[i].id@ == id
            &&& forall|i: int|
                0 <= i < was.len() && (#[trigger] was[i]).id@ != id ==> now[i] == was[i]
            &&& exists|i: int|
                0 <= i < now.len() && (#[trigger] now[i]).id@ == id && now[i].usage == usage
                    && now[i].lines == was[i].lines
        },
{
    let p = choose|p: int|
        {
            &&& #[trigger] first_with(was, id, p)
            &&& p < now.len()
            &&& now.len() == (if p < was.len() {
                was.len()
            } else {
                was.len() + 1
            })
            &&& forall|i: int| 0 <= i < was.len() && i != p ==> #[trigger] now[i] == was[i]
            &&& now[p].id@ == id
            &&& now[p].usage == usage
            &&& p < was.len() ==> now[p].lines == was[p].lines
            &&& p == was.len() ==> now[p].lines@.len() == 0
        };
    if p < was.len() {
        assert(was[p].id@ == id);
        assert(now[p].lines == was[p].lines);
    } else {
        assert(now.take(was.len() as int) =~= was);
    }
}

/// A session that is created becomes the active one only where there is none.
pub proof fn created_session_waits_its_turn(
    was: Store,
    now: Store,
    session_id: String,
    session: Session,
    fresh: TaskId,
)
    requires
        event_applied(was, now, Event::SessionCreated { session_id, session }, fresh),
        !was.retired_sessions@.dom().contains(session_id@),
    ensures
        was.active_session matches Some(a) ==> (now.active_session matches Some(b) && b@ == a@),
        was.active_session is None ==> (now.active_session matches Some(b) && b@ == session_id@),
        now.messages == was.messages && now.statuses == was.statuses,
{
}

} // verus!
