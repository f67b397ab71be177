//! Commands of the user interface, and what becomes of them.
use crate::paths;
use crate::review;
use crate::review::DiffNote;
use crate::session::{
    FileDiff, SelectedModel, Session, SessionStatus, WorktreeRecord, WorktreeStatus,
};
use crate::sorted_map;
use crate::sorted_map::StrMap;
use crate::store;
use crate::store::Store;
use crate::text;
use vstd::prelude::*;
use vstd::string::*;

verus! {

/// A piece of a unified diff.
#[derive(Debug, Clone, PartialEq, Eq)]
pub struct Hunk {
    pub text: String,
}

/// An answer to a permission.
#[derive(Debug, Clone, Copy, PartialEq, Eq, Structural)]
pub enum PermissionResponse {
    Once,
    Always,
    Reject,
}

impl PermissionResponse {
    /// The answer as the agent server spells it.
    pub open spec fn wire(self) -> Seq<char> {
        match self {
            PermissionResponse::Once => "once"@,
            PermissionResponse::Always => "always"@,
            PermissionResponse::Reject => "reject"@,
        }
    }

    /// The answer as the agent server spells it.
    pub fn as_wire(&self) -> (s: &'static str)
        ensures
            s@ == self.wire(),
    {
        match self {
            PermissionResponse::Once => "once",
            PermissionResponse::Always => "always",
            PermissionResponse::Reject => "reject",
        }
    }
}

/// What the user asks for.
#[derive(Debug, Clone, PartialEq, Eq)]
pub enum Command {
    CreateSession { title: String },
    SelectSession { id: String },
    CreateWorktree { slug: String },
    RemoveWorktree { slug: String },
    MergeWorktree { slug: String },
    SelectWorktree { slug: String },
    Prompt { text: String },
    FanOut { text: String },
    /// Start the stopped task of a worktree again.
    RetryTask { slug: String },
    Abort,
    FetchDiff(String),
    FetchAllDiffs,
    /// Apply pieces of a file's changes in the repository itself.
    ApplyHunks { file: String, hunks: Vec<Hunk> },
    SendNotes { session_id: String, notes: Vec<DiffNote> },
    PermissionReply { permission_id: String, response: PermissionResponse },
    SetModel { provider_id: String, model_id: String },
}

/// Outside work that can fail.
#[derive(Debug, Clone, PartialEq, Eq)]
pub enum Trouble {
    Client,
    CreateSession,
    CreateWorktree,
    RemoveWorktree,
    Merge { slug: String },
    Diff,
    Prompt,
    Abort,
    Reply,
}

impl Trouble {
    /// How its error begins.
    pub open spec fn heading(self) -> Seq<char> {
        match self {
            Trouble::Client => "worktree client failed: "@,
            Trouble::CreateSession => "create session failed: "@,
            Trouble::CreateWorktree => "create worktree failed: "@,
            Trouble::RemoveWorktree => "remove worktree failed: "@,
            Trouble::Merge { slug } => "merge "@ + slug@ + " failed: "@,
            Trouble::Diff => "diff fetch failed: "@,
            Trouble::Prompt => "prompt failed: "@,
            Trouble::Abort => "abort failed: "@,
            Trouble::Reply => " permission reply failed: "@,
        }
    }

    /// How its error begins.
    pub fn text(&self) -> (s: String)
        ensures
            s@ == self.heading(),
    {
        match self {
            Trouble::Client => "worktree client failed: ".to_owned(),
            Trouble::CreateSession => "create session failed: ".to_owned(),
            Trouble::CreateWorktree => "create worktree failed: ".to_owned(),
            Trouble::RemoveWorktree => "remove worktree failed: ".to_owned(),
            Trouble::Merge { slug } => {
                let mut s = "merge ".to_owned();
                s.append(slug.as_str());
                s.append(" failed: ");
                s
            },
            Trouble::Diff => "diff fetch failed: ".to_owned(),
            Trouble::Prompt => "prompt failed: ".to_owned(),
            Trouble::Abort => "abort failed: ".to_owned(),
            Trouble::Reply => " permission reply failed: ".to_owned(),
        }
    }
}

/// One step of sending a prompt to many sessions.
#[derive(Debug, Clone, PartialEq, Eq)]
pub enum FanStep {
    /// The session is busy: say so, for its worktree.
    Skip { scope: String },
    /// Send it, over the client of `client`.
    Send { sid: String, client: String },
}

/// What is to be done outside for a command.
#[derive(Debug, PartialEq, Eq)]
pub enum Action {
    /// Nothing.
    Nothing,
    /// Open the client of `scope` and create a session.
    CreateSession { scope: String, title: Option<String> },
    /// Create a worktree.
    CreateWorktree { slug: String },
    /// Abort these sessions over the client of `client`, then remove the
    /// worktree.
    RemoveWorktree { slug: String, client: String, sids: Vec<String> },
    /// Merge the worktree.
    MergeWorktree { slug: String, sids: Vec<String> },
    /// Fetch messages and plan of a session.
    Refresh { sid: String, client: String },
    /// Send a prompt to a session.
    Prompt { sid: String, client: String, text: String, model: Option<(String, String)> },
    /// Send a prompt to many sessions.
    FanOut { steps: Vec<FanStep>, text: String, model: Option<(String, String)> },
    /// Start the stopped task of a worktree again.
    RetryTask { slug: String },
    /// Abort what a session does.
    Abort { sid: String, client: String },
    /// Fetch the changes of these sessions, each in its directory.
    FetchDiffs { targets: Vec<DiffTarget> },
    /// Apply pieces of a file's changes in the repository itself.
    ApplyHunks { file: String, hunks: Vec<Hunk> },
    /// Answer a permission of a session.
    Reply { sid: String, client: String, permission_id: String, response: PermissionResponse },
}

/// A session whose changes are fetched.
#[derive(Debug, Clone, PartialEq, Eq)]
pub struct DiffTarget {
    pub sid: String,
    pub client: String,
    pub path: String,
}

/// The state of the command loop.
pub struct LoopState {
    pub store: Store,
    /// The repository.
    pub repo: String,
    /// The scopes that have a client of their own.
    pub clients: StrMap<()>,
    /// The scopes whose events are read.
    pub pumped: StrMap<()>,
}

/// The scope whose client serves `scope`: its own, else the repository's.
pub open spec fn client_scope(clients: Set<Seq<char>>, scope: Seq<char>) -> Seq<char> {
    if clients.contains(scope) {
        scope
    } else {
        Seq::empty()
    }
}

/// The sessions of a worktree, in order.
pub open spec fn sessions_of(entries: Seq<(Seq<char>, String)>, slug: Seq<char>) -> Seq<Seq<char>> {
    sorted_map::keys_of(sorted_map::kept(entries, store::owned_by(slug)))
}

/// The model that prompts go to.
pub open spec fn model_of(m: Option<SelectedModel>) -> Option<(Seq<char>, Seq<char>)> {
    match m {
        Some(s) => Some((s.provider_id@, s.id@)),
        None => None,
    }
}

/// What a choice of a model holds.
pub open spec fn choice(m: Option<(String, String)>) -> Option<(Seq<char>, Seq<char>)> {
    match m {
        Some((p, i)) => Some((p@, i@)),
        None => None,
    }
}

/// The directory of a worktree.
pub open spec fn worktree_dir(repo: Seq<char>, scope: Seq<char>) -> Seq<char> {
    if scope.len() == 0 {
        repo
    } else {
        paths::join(paths::join(repo, ".ade-worktrees"@), scope)
    }
}

/// What a [`FanStep`] holds.
pub enum FanModel {
    Skip(Seq<char>),
    Send(Seq<char>, Seq<char>),
}

impl View for FanStep {
    type V = FanModel;

    open spec fn view(&self) -> FanModel {
        match self {
            FanStep::Skip { scope } => FanModel::Skip(scope@),
            FanStep::Send { sid, client } => FanModel::Send(sid@, client@),
        }
    }
}

/// What a [`DiffTarget`] holds.
pub struct TargetModel {
    pub sid: Seq<char>,
    pub client: Seq<char>,
    pub path: Seq<char>,
}

impl View for DiffTarget {
    type V = TargetModel;

    open spec fn view(&self) -> TargetModel {
        TargetModel { sid: self.sid@, client: self.client@, path: self.path@ }
    }
}

impl LoopState {
    /// A loop over an empty store.
    pub fn new(repo: &str) -> (st: LoopState)
        ensures
            st.store.is_new(),
            st.repo@ == repo@,
            st.clients@ == Map::<Seq<char>, ()>::empty(),
            st.pumped@ == Map::<Seq<char>, ()>::empty(),
    {
        LoopState {
            store: Store::new(),
            repo: repo.to_owned(),
            clients: StrMap::new(),
            pumped: StrMap::new(),
        }
    }

    /// The scope whose client serves a session.
    pub open spec fn serving(&self, sid: Seq<char>) -> Seq<char> {
        client_scope(self.clients@.dom(), self.store.scope(sid))
    }

    /// The scope whose client serves a session.
    pub fn client_for(&self, sid: &str) -> (c: String)
        ensures
            c@ == self.serving(sid@),
    {
        self.client_of(self.store.scope_of(sid))
    }

    fn client_of(&self, scope: &str) -> (c: String)
        ensures
            c@ == client_scope(self.clients@.dom(), scope@),
    {
        if self.clients.contains_key(scope) {
            scope.to_owned()
        } else {
            String::new()
        }
    }

    /// The steps of sending a prompt to every session of a worktree.
    pub open spec fn fan_steps(&self, entries: Seq<(Seq<char>, String)>) -> Seq<FanModel>
        decreases entries.len(),
    {
        if entries.len() == 0 {
            Seq::empty()
        } else {
            let rest = self.fan_steps(entries.drop_last());
            let (sid, scope) = entries.last();
            if scope@.len() == 0 {
                rest
            } else if self.store.works(sid) {
                rest.push(FanModel::Skip(scope@))
            } else {
                rest.push(FanModel::Send(sid, client_scope(self.clients@.dom(), scope@)))
            }
        }
    }

    /// The steps of sending a prompt to every session of a worktree: the busy
    /// ones are skipped.
    pub fn fan_out(&self) -> (steps: Vec<FanStep>)
        ensures
            steps@.map_values(|s: FanStep| s@) == self.fan_steps(
                self.store.session_scope.entries(),
            ),
    {
        let n: usize = self.store.session_scope.len();
        let ghost all = self.store.session_scope.entries();
        let mut steps: Vec<FanStep> = Vec::new();
        let mut i: usize = 0;
        let ghost f = |s: FanStep| s@;
        assert(steps@.map_values(f) =~= self.fan_steps(all.take(0)));
        while i < n
            invariant
                i <= n == all.len(),
                all == self.store.session_scope.entries(),
                f == (|s: FanStep| s@),
                steps@.map_values(f) == self.fan_steps(all.take(i as int)),
            decreases n - i,
        {
            assert(all.take(i + 1).drop_last() =~= all.take(i as int));
            let sid = self.store.session_scope.key_at(i);
            let scope = self.store.session_scope.value_at(i);
            if !scope.as_str().is_empty() {
                let ghost was = steps@;
                if self.store.is_working(sid.as_str()) {
                    steps.push(FanStep::Skip { scope: scope.clone() });
                } else {
                    steps.push(
                        FanStep::Send {
                            sid: sid.clone(),
                            client: self.client_of(scope.as_str()),
                        },
                    );
                }
                assert(steps@.map_values(f) =~= was.map_values(f).push(steps@.last()@));
            }
            i += 1;
        }
        assert(all.take(all.len() as int) =~= all);
        steps
    }

    /// The sessions of a worktree, in order.
    pub fn scoped_sessions(&self, slug: &str) -> (out: Vec<String>)
        ensures
            text::texts(out@) == sessions_of(self.store.session_scope.entries(), slug@),
    {
        let n: usize = self.store.session_scope.len();
        let ghost all = self.store.session_scope.entries();
        let ghost mine = store::owned_by(slug@);
        let mut out: Vec<String> = Vec::new();
        let mut i: usize = 0;
        assert(all.take(0) =~= Seq::empty());
        assert(text::texts(out@) =~= sorted_map::keys_of(sorted_map::kept(all.take(0), mine)));
        while i < n
            invariant
                i <= n == all.len(),
                all == self.store.session_scope.entries(),
                mine == store::owned_by(slug@),
                text::texts(out@) == sorted_map::keys_of(
                    sorted_map::kept(all.take(i as int), mine),
                ),
            decreases n - i,
        {
            assert(all.take(i + 1).drop_last() =~= all.take(i as int));
            let ghost so_far = sorted_map::kept(all.take(i as int), mine);
            if text::same(self.store.session_scope.value_at(i).as_str(), slug) {
                let ghost was = out@;
                out.push(self.store.session_scope.key_at(i).clone());
                assert(text::texts(out@) =~= text::texts(was).push(all[i as int].0));
                assert(sorted_map::keys_of(so_far.push(all[i as int])) =~= sorted_map::keys_of(
                    so_far,
                ).push(all[i as int].0));
            }
            i += 1;
        }
        assert(all.take(all.len() as int) =~= all);
        out
    }

    /// Where the changes of a session are fetched.
    pub open spec fn diff_target(&self, sid: Seq<char>) -> TargetModel {
        TargetModel {
            sid,
            client: self.serving(sid),
            path: worktree_dir(self.repo@, self.store.scope(sid)),
        }
    }

    fn target_of(&self, sid: &str) -> (t: DiffTarget)
        ensures
            t@ == self.diff_target(sid@),
    {
        let scope = self.store.scope_of(sid);
        let path = if scope.is_empty() {
            self.repo.clone()
        } else {
            let dir = paths::joined(self.repo.as_str(), ".ade-worktrees");
            paths::joined(dir.as_str(), scope)
        };
        DiffTarget { sid: sid.to_owned(), client: self.client_for(sid), path }
    }

    fn chosen_model(&self) -> (m: Option<(String, String)>)
        ensures
            choice(m) == model_of(self.store.selected_model),
    {
        match &self.store.selected_model {
            Some(m) => Some((m.provider_id.clone(), m.id.clone())),
            None => None,
        }
    }

    fn all_targets(&self) -> (out: Vec<DiffTarget>)
        ensures
            out@.len() == self.store.sessions.keys().len(),
            forall|i: int|
                0 <= i < out@.len() ==> (#[trigger] out@[i])@ == self.diff_target(
                    self.store.sessions.keys()[i],
                ),
    {
        let n: usize = self.store.sessions.len();
        let mut out: Vec<DiffTarget> = Vec::new();
        let mut i: usize = 0;
        while i < n
            invariant
                i <= n == self.store.sessions.entries().len(),
                out@.len() == i,
                forall|k: int|
                    0 <= k < i ==> (#[trigger] out@[k])@ == self.diff_target(
                        self.store.sessions.keys()[k],
                    ),
            decreases n - i,
        {
            out.push(self.target_of(self.store.sessions.key_at(i).as_str()));
            i += 1;
        }
        out
    }

    /// Takes in a command: what it changes at once, and what is to be done
    /// outside.
    pub fn handle_command(&mut self, cmd: Command) -> (a: Action)
        ensures
            handled(*old(self), *final(self), cmd, a),
    {
        match cmd {
            Command::CreateSession { title } => {
                let scope = match &self.store.active_worktree {
                    Some(s) => s.clone(),
                    None => String::new(),
                };
                Action::CreateSession { scope, title: session_title(title) }
            },
            Command::CreateWorktree { slug } => Action::CreateWorktree { slug },
            Command::RemoveWorktree { slug } => {
                let sids = self.scoped_sessions(slug.as_str());
                let client = self.client_of(slug.as_str());
                Action::RemoveWorktree { slug, client, sids }
            },
            Command::MergeWorktree { slug } => {
                let sids = self.scoped_sessions(slug.as_str());
                Action::MergeWorktree { slug, sids }
            },
            Command::SelectWorktree { slug } => self.select_worktree(slug),
            Command::SelectSession { id } => self.select_session(id),
            Command::Prompt { text } => {
                let sid = match &self.store.active_session {
                    Some(sid) => sid.clone(),
                    None => {
                        self.store.push_error("no active session — create one first".to_owned());
                        return Action::Nothing;
                    },
                };
                let client = self.client_for(sid.as_str());
                let model = self.chosen_model();
                Action::Prompt { sid, client, text, model }
            },
            Command::FanOut { text } => {
                let steps = self.fan_out();
                assert(steps@.map_values(|s: FanStep| s@).len() == steps@.len());
                if steps.len() == 0 {
                    self.store.push_error(
                        "fan-out needs at least one worktree session".to_owned(),
                    );
                    return Action::Nothing;
                }
                let model = self.chosen_model();
                Action::FanOut { steps, text, model }
            },
            Command::SendNotes { session_id, notes } => {
                if notes.len() == 0 {
                    return Action::Nothing;
                }
                let client = self.client_for(session_id.as_str());
                let text = review::format_review_notes(notes.as_slice());
                let model = self.chosen_model();
                Action::Prompt { sid: session_id, client, text, model }
            },
            Command::Abort => match &self.store.active_session {
                Some(sid) => {
                    let sid = sid.clone();
                    let client = self.client_for(sid.as_str());
                    Action::Abort { sid, client }
                },
                None => Action::Nothing,
            },
            Command::PermissionReply { permission_id, response } => {
                let sid = match self.store.pending_permissions.get(permission_id.as_str()) {
                    Some(p) => Some(p.session_id.clone()),
                    None => None,
                };
                match sid {
                    Some(sid) => {
                        let client = self.client_for(sid.as_str());
                        Action::Reply { sid, client, permission_id, response }
                    },
                    None => {
                        self.store.push_error("reply for unknown permission".to_owned());
                        Action::Nothing
                    },
                }
            },
            Command::FetchDiff(sid) => {
                let mut targets: Vec<DiffTarget> = Vec::new();
                targets.push(self.target_of(sid.as_str()));
                Action::FetchDiffs { targets }
            },
            Command::FetchAllDiffs => Action::FetchDiffs { targets: self.all_targets() },
            Command::SetModel { provider_id, model_id } => {
                self.store.selected_model = Some(SelectedModel { provider_id, id: model_id });
                Action::Nothing
            },
            Command::RetryTask { slug } => Action::RetryTask { slug },
            Command::ApplyHunks { file, hunks } => Action::ApplyHunks { file, hunks },
        }
    }

    fn select_worktree(&mut self, slug: String) -> (a: Action)
        ensures
            handled(*old(self), *final(self), Command::SelectWorktree { slug }, a),
    {
        let sid = match self.store.worktrees.get(slug.as_str()) {
            Some(r) => text::copy_opt(&r.session_id),
            None => {
                return Action::Nothing;
            },
        };
        self.store.active_worktree = Some(slug);
        match sid {
            Some(sid) => {
                if !self.store.sessions.contains_key(sid.as_str()) {
                    return Action::Nothing;
                }
                self.store.active_session = Some(sid.clone());
                let client = self.client_for(sid.as_str());
                Action::Refresh { sid, client }
            },
            None => Action::Nothing,
        }
    }

    fn select_session(&mut self, id: String) -> (a: Action)
        ensures
            handled(*old(self), *final(self), Command::SelectSession { id }, a),
    {
        if !self.store.sessions.contains_key(id.as_str()) {
            return Action::Nothing;
        }
        let scope = self.store.scope_of(id.as_str());
        let worktree = if scope.is_empty() {
            None
        } else {
            Some(scope.to_owned())
        };
        self.store.active_session = Some(id.clone());
        self.store.active_worktree = worktree;
        let client = self.client_for(id.as_str());
        Action::Refresh { sid: id, client }
    }

    /// Takes in an error of outside work.
    pub fn on_failure(&mut self, what: Trouble, why: &str)
        ensures
            only_error(*old(self), *final(self), what.heading() + why@),
    {
        let mut msg = what.text();
        msg.append(why);
        self.store.push_error(msg);
    }

    /// Notes that a worktree was left out of a prompt to all of them.
    pub fn on_skipped(&mut self, scope: &str)
        ensures
            only_error(*old(self), *final(self), "fan-out skipped "@ + scope@ + ": busy"@),
    {
        let mut msg = "fan-out skipped ".to_owned();
        msg.append(scope);
        msg.append(": busy");
        self.store.push_error(msg);
    }

    /// Takes in a worktree that was created: it is active, and a session is
    /// created in it.
    pub fn on_worktree_created(&mut self, record: WorktreeRecord) -> (a: Action)
        ensures
            *final(self) == (LoopState { store: final(self).store, ..*old(self) }),
            final(self).store == (Store {
                worktrees: final(self).store.worktrees,
                active_worktree: final(self).store.active_worktree,
                ..old(self).store
            }),
            final(self).store.worktrees@ == old(self).store.worktrees@.insert(record.slug@, record),
            text::opt_text(final(self).store.active_worktree) == Some(record.slug@),
            final(self).store.active_is_known(),
            a matches Action::CreateSession { scope, title } && scope@ == record.slug@
                && text::opt_text(title) == Some("work in "@ + record.slug@),
    {
        let slug = record.slug.clone();
        self.store.upsert_worktree(record);
        self.store.active_worktree = Some(slug.clone());
        let mut title = "work in ".to_owned();
        title.append(slug.as_str());
        proof {
            reveal_strlit("work in ");
            blank_prefix(slug@);
        }
        Action::CreateSession { scope: slug, title: session_title(title) }
    }

    /// Takes in a session that was created in a scope: it is active, and the
    /// main session of its worktree where that had none.
    pub fn on_session_created(&mut self, scope: &str, id: &str, session: Session) -> (a: Action)
        ensures
            *final(self) == (LoopState { store: final(self).store, ..*old(self) }),
            session_added(old(self).store, final(self).store, scope@, id@, session),
            a matches Action::Refresh { sid, client } && sid@ == id@ && client@ == final(
                self).serving(id@),
    {
        self.store.session_scope.insert(id.to_owned(), scope.to_owned());
        self.store.active_session = Some(id.to_owned());
        self.store.sessions.insert(id.to_owned(), session);
        let linked = match self.store.worktrees.get(scope) {
            Some(r) => if !scope.is_empty() && r.session_id.is_none() {
                Some(
                    WorktreeRecord {
                        slug: r.slug.clone(),
                        branch: r.branch.clone(),
                        path: r.path.clone(),
                        status: r.status,
                        session_id: Some(id.to_owned()),
                    },
                )
            } else {
                None
            },
            None => None,
        };
        if let Some(record) = linked {
            self.store.worktrees.insert(scope.to_owned(), record);
        }
        assert(self.store.worktrees@.dom() =~= old(self).store.worktrees@.dom());
        assert(self.store.session_scope@.dom() =~= old(self).store.session_scope@.dom().insert(id@));
        Action::Refresh { sid: id.to_owned(), client: self.client_for(id) }
    }

    /// Forgets a worktree that is gone, with its sessions and its client.
    pub fn drop_scope(&mut self, slug: &str, sids: &Vec<String>)
        ensures
            scope_dropped(*old(self), *final(self), slug@, text::texts(sids@)),
    {
        let ghost all = text::texts(sids@);
        let ghost start = *self;
        let mut i: usize = 0;
        assert(all.take(0) =~= Seq::empty());
        while i < sids.len()
            invariant
                i <= sids@.len(),
                all == text::texts(sids@),
                *self == (LoopState { store: self.store, ..start }),
                all_retired(start.store, self.store, all.take(i as int)),
            decreases sids@.len() - i,
        {
            let ghost before = self.store;
            assert(all.take(i + 1).drop_last() =~= all.take(i as int));
            assert(all[i as int] == sids@[i as int]@);
            self.store.retire_session(sids[i].as_str());
            assert(store::session_retired(before, self.store, all.take(i + 1).last()));
            i += 1;
        }
        assert(all.take(all.len() as int) =~= all);
        let ghost mid = self.store;
        self.store.remove_worktree(slug);
        self.clients.remove(slug);
        self.pumped.remove(slug);
        assert(all_retired(start.store, mid, all) && worktree_removed(mid, self.store, slug@));
    }

    /// Takes in that a prompt was sent: its session is busy.
    pub fn on_prompted(&mut self, sid: &str)
        ensures
            *final(self) == (LoopState { store: final(self).store, ..*old(self) }),
            final(self).store == (Store {
                statuses: final(self).store.statuses,
                ..old(self).store
            }),
            final(self).store.statuses@ == old(self).store.statuses@.insert(
                sid@,
                SessionStatus::Busy,
            ),
            final(self).store.works(sid@),
    {
        self.store.statuses.insert(sid.to_owned(), SessionStatus::Busy);
    }

    /// Takes in that a permission was answered.
    pub fn on_replied(&mut self, permission_id: &str)
        ensures
            *final(self) == (LoopState { store: final(self).store, ..*old(self) }),
            final(self).store == (Store {
                pending_permissions: final(self).store.pending_permissions,
                ..old(self).store
            }),
            final(self).store.pending_permissions@ == old(
                self).store.pending_permissions@.remove(permission_id@),
    {
        self.store.pending_permissions.remove(permission_id);
    }

    /// Takes in the changes of a session.
    pub fn on_diff(&mut self, sid: &str, diff: Option<Vec<FileDiff>>)
        ensures
            *final(self) == (LoopState { store: final(self).store, ..*old(self) }),
            final(self).store == (Store { diffs: final(self).store.diffs, ..old(self).store }),
            final(self).store.diffs@ == old(self).store.diffs@.insert(sid@, diff),
    {
        self.store.diffs.insert(sid.to_owned(), diff);
    }
}

/// The title of a session that is created: none where it is blank.
pub fn session_title(title: String) -> (r: Option<String>)
    ensures
        text::opt_text(r) == titled(title@),
{
    if text::trimmed(title.as_str()).as_str().is_empty() {
        None
    } else {
        Some(title)
    }
}

/// The title of a session that is created: none where it is blank.
pub open spec fn titled(title: Seq<char>) -> Option<Seq<char>> {
    if text::trim(title, text::blank()).len() == 0 {
        None
    } else {
        Some(title)
    }
}

proof fn blank_prefix(slug: Seq<char>)
    requires
        "work in "@.len() > 0,
        "work in "@[0] == 'w',
    ensures
        titled("work in "@ + slug) == Some("work in "@ + slug),
{
    let s = "work in "@ + slug;
    assert(s[0] == 'w');
    assert(text::trim_start(s, text::blank()) == s);
    trim_end_keeps_first(s);
}

proof fn trim_end_keeps_first(s: Seq<char>)
    requires
        s.len() > 0,
        !text::is_space(s[0]),
    ensures
        text::trim_end(s, text::blank()).len() > 0,
    decreases s.len(),
{
    if text::is_space(s.last()) {
        if s.len() == 1 {
            assert(s.last() == s[0]);
        } else {
            trim_end_keeps_first(s.drop_last());
        }
    }
}

/// An error was taken in, and nothing else.
pub open spec fn only_error(was: LoopState, now: LoopState, text: Seq<char>) -> bool {
    &&& now == (LoopState { store: now.store, ..was })
    &&& now.store == (Store { errors: now.store.errors, ..was.store })
    &&& exists|msg: String|
        msg@ == text && now.store.errors@ == #[trigger] store::last_of(
            was.store.errors@.push(msg),
            20,
        )
}

/// What a command changes at once, and what it has done outside.
pub open spec fn handled(was: LoopState, now: LoopState, cmd: Command, a: Action) -> bool {
    match cmd {
        Command::CreateSession { title } => {
            &&& now == was
            &&& a matches Action::CreateSession { scope, title: t } && scope@ == (
            match text::opt_text(was.store.active_worktree) {
                Some(s) => s,
                None => Seq::empty(),
            }) && text::opt_text(t) == titled(title@)
        },
        Command::SelectSession { id } => if was.store.sessions@.dom().contains(id@) {
            &&& now == (LoopState { store: now.store, ..was })
            &&& now.store == (Store {
                active_session: now.store.active_session,
                active_worktree: now.store.active_worktree,
                ..was.store
            })
            &&& text::opt_text(now.store.active_session) == Some(id@)
            &&& text::opt_text(now.store.active_worktree) == (if was.store.scope(id@).len() == 0 {
                None
            } else {
                Some(was.store.scope(id@))
            })
            &&& a matches Action::Refresh { sid, client } && sid@ == id@ && client@ == was.serving(
                id@,
            )
        } else {
            now == was && a is Nothing
        },
        Command::CreateWorktree { slug } => now == was && (a matches Action::CreateWorktree {
            slug: s,
        } && s@ == slug@),
        Command::RemoveWorktree { slug } => now == was && (a matches Action::RemoveWorktree {
            slug: s,
            client,
            sids,
        } && s@ == slug@ && client@ == client_scope(was.clients@.dom(), slug@) && text::texts(sids@)
            == sessions_of(was.store.session_scope.entries(), slug@)),
        Command::MergeWorktree { slug } => now == was && (a matches Action::MergeWorktree {
            slug: s,
            sids,
        } && s@ == slug@ && text::texts(sids@) == sessions_of(
            was.store.session_scope.entries(),
            slug@,
        )),
        Command::SelectWorktree { slug } => if was.store.worktrees@.dom().contains(slug@) {
            let linked = text::opt_text(was.store.worktrees@[slug@].session_id);
            &&& now == (LoopState { store: now.store, ..was })
            &&& now.store == (Store {
                active_session: now.store.active_session,
                active_worktree: now.store.active_worktree,
                ..was.store
            })
            &&& text::opt_text(now.store.active_worktree) == Some(slug@)
            &&& if linked is Some && was.store.sessions@.dom().contains(linked->0) {
                &&& text::opt_text(now.store.active_session) == linked
                &&& a matches Action::Refresh { sid, client } && sid@ == linked->0 && client@
                    == was.serving(linked->0)
            } else {
                now.store.active_session == was.store.active_session && a is Nothing
            }
        } else {
            now == was && a is Nothing
        },
        Command::Prompt { text } => match text::opt_text(was.store.active_session) {
            Some(active) => now == was && (a matches Action::Prompt {
                sid,
                client,
                text: t,
                model,
            } && sid@ == active && client@ == was.serving(active) && t@ == text@ && choice(model)
                == model_of(was.store.selected_model)),
            None => a is Nothing && only_error(was, now, "no active session — create one first"@),
        },
        Command::FanOut { text } => {
            let steps = was.fan_steps(was.store.session_scope.entries());
            if steps.len() == 0 {
                a is Nothing && only_error(was, now, "fan-out needs at least one worktree session"@)
            } else {
                now == was && (a matches Action::FanOut { steps: s, text: t, model }
                    && s@.map_values(|s: FanStep| s@) == steps && t@ == text@ && choice(model)
                    == model_of(was.store.selected_model))
            }
        },
        Command::RetryTask { slug } => now == was && (a matches Action::RetryTask { slug: s } && s@
            == slug@),
        Command::Abort => match text::opt_text(was.store.active_session) {
            Some(active) => now == was && (a matches Action::Abort { sid, client } && sid@ == active
                && client@ == was.serving(active)),
            None => now == was && a is Nothing,
        },
        Command::FetchDiff(sid) => now == was && (a matches Action::FetchDiffs { targets }
            && targets@.len() == 1 && targets@[0]@ == was.diff_target(sid@)),
        Command::FetchAllDiffs => now == was && (a matches Action::FetchDiffs { targets }
            && targets@.len() == was.store.sessions.keys().len() && forall|i: int|
            0 <= i < targets@.len() ==> (#[trigger] targets@[i])@ == was.diff_target(
                was.store.sessions.keys()[i],
            )),
        Command::ApplyHunks { file, hunks } => now == was && (a matches Action::ApplyHunks {
            file: f,
            hunks: h,
        } && f == file && h == hunks),
        Command::SendNotes { session_id, notes } => now == was && if notes@.len() == 0 {
            a is Nothing
        } else {
            a matches Action::Prompt { sid, client, text, model } && sid@ == session_id@ && client@
                == was.serving(session_id@) && text@
                == "Review feedback — please address each item:\n"@ + review::notes_text(
                review::note_models(notes@),
            ) && choice(model) == model_of(was.store.selected_model)
        },
        Command::PermissionReply { permission_id, response } => {
            if was.store.pending_permissions@.dom().contains(permission_id@) {
                let asked = was.store.pending_permissions@[permission_id@].session_id@;
                now == was && (a matches Action::Reply {
                    sid,
                    client,
                    permission_id: p,
                    response: r,
                } && sid@ == asked && client@ == was.serving(asked) && p@ == permission_id@ && r
                    == response)
            } else {
                a is Nothing && only_error(was, now, "reply for unknown permission"@)
            }
        },
        Command::SetModel { provider_id, model_id } => {
            &&& a is Nothing
            &&& now == (LoopState {
                store: Store {
                    selected_model: Some(SelectedModel { provider_id, id: model_id }),
                    ..was.store
                },
                ..was
            })
        },
    }
}

/// `now` is `was` with a session more.
pub open spec fn session_added(
    was: Store,
    now: Store,
    scope: Seq<char>,
    id: Seq<char>,
    session: Session,
) -> bool {
    &&& now == (Store {
        session_scope: now.session_scope,
        active_session: now.active_session,
        sessions: now.sessions,
        worktrees: now.worktrees,
        ..was
    })
    &&& now.scope(id) == scope
    &&& now.session_scope@.dom() == was.session_scope@.dom().insert(id)
    &&& forall|q: Seq<char>| q != id ==> now.scope(q) == was.scope(q)
    &&& text::opt_text(now.active_session) == Some(id)
    &&& now.sessions@ == was.sessions@.insert(id, session)
    &&& if scope.len() > 0 && was.worktrees@.dom().contains(scope)
        && was.worktrees@[scope].session_id is None {
        &&& now.worktrees@.dom() == was.worktrees@.dom()
        &&& text::opt_text(now.worktrees@[scope].session_id) == Some(id)
        &&& now.worktrees@[scope] == (WorktreeRecord {
            session_id: now.worktrees@[scope].session_id,
            ..was.worktrees@[scope]
        })
        &&& forall|q: Seq<char>|
            q != scope && was.worktrees@.dom().contains(q) ==> #[trigger] now.worktrees@[q]
                == was.worktrees@[q]
    } else {
        now.worktrees == was.worktrees
    }
}

/// `now` is `was` after some sessions were retired, one after the other.
pub open spec fn all_retired(was: Store, now: Store, sids: Seq<Seq<char>>) -> bool
    decreases sids.len(),
{
    if sids.len() == 0 {
        now == was
    } else {
        exists|mid: Store|
            all_retired(was, mid, sids.drop_last()) && #[trigger] store::session_retired(
                mid,
                now,
                sids.last(),
            )
    }
}

/// `now` is `was` without a worktree; where it was active, the first of the
/// others is.
pub open spec fn worktree_removed(was: Store, now: Store, slug: Seq<char>) -> bool {
    &&& now == (Store {
        worktrees: now.worktrees,
        active_worktree: now.active_worktree,
        ..was
    })
    &&& now.worktrees@ == was.worktrees@.remove(slug)
    &&& text::opt_text(now.active_worktree) == (if text::opt_text(was.active_worktree) == Some(
        slug,
    ) {
        store::first_key(now.worktrees.keys())
    } else {
        text::opt_text(was.active_worktree)
    })
}

/// `now` is `was` without a worktree, its sessions and its client.
pub open spec fn scope_dropped(
    was: LoopState,
    now: LoopState,
    slug: Seq<char>,
    sids: Seq<Seq<char>>,
) -> bool {
    &&& now.repo == was.repo
    &&& now.clients@ == was.clients@.remove(slug)
    &&& now.pumped@ == was.pumped@.remove(slug)
    &&& exists|mid: Store| #[trigger]
        all_retired(was.store, mid, sids) && worktree_removed(mid, now.store, slug)
}

/// Sessions that were retired are in the mirror no more, and stay retired.
pub proof fn retired_sessions_are_gone(was: Store, now: Store, sids: Seq<Seq<char>>)
    requires
        all_retired(was, now, sids),
    ensures
        forall|k: int|
            0 <= k < sids.len() ==> now.retired_sessions@.dom().contains(#[trigger] sids[k])
                && !now.session_scope@.dom().contains(sids[k]) && !now.sessions@.dom().contains(
                sids[k],
            ),
        forall|q: Seq<char>|
            was.retired_sessions@.dom().contains(q) ==> now.retired_sessions@.dom().contains(q),
    decreases sids.len(),
{
    if sids.len() > 0 {
        let mid = choose|mid: Store|
            all_retired(was, mid, sids.drop_last()) && #[trigger] store::session_retired(
                mid,
                now,
                sids.last(),
            );
        retired_sessions_are_gone(was, mid, sids.drop_last());
        assert forall|k: int| 0 <= k < sids.len() implies now.retired_sessions@.dom().contains(
            #[trigger] sids[k],
        ) && !now.session_scope@.dom().contains(sids[k]) && !now.sessions@.dom().contains(sids[k]) by {
            if k < sids.len() - 1 {
                assert(sids.drop_last()[k] == sids[k]);
            }
        }
    }
}

/// After a worktree is dropped it is neither known nor active, has no client,
/// and its sessions are retired.
pub proof fn dropped_worktree_is_gone(
    was: LoopState,
    now: LoopState,
    slug: Seq<char>,
    sids: Seq<Seq<char>>,
)
    requires
        scope_dropped(was, now, slug, sids),
        forall|k: int|
            0 <= k < now.store.worktrees.keys().len() ==> now.store.worktrees@.dom().contains(
                #[trigger] now.store.worktrees.keys()[k],
            ),
    ensures
        !now.store.worktrees@.dom().contains(slug),
        !now.clients@.dom().contains(slug),
        text::opt_text(now.store.active_worktree) != Some(slug),
        forall|k: int|
            0 <= k < sids.len() ==> now.store.retired_sessions@.dom().contains(#[trigger] sids[k])
                && !now.store.sessions@.dom().contains(sids[k]),
{
    let mid = choose|mid: Store| #[trigger]
        all_retired(was.store, mid, sids) && worktree_removed(mid, now.store, slug);
    retired_sessions_are_gone(was.store, mid, sids);
}

/// What a round of polling does.
#[derive(Debug, PartialEq, Eq)]
pub struct PollPlan {
    /// The session whose messages and plan are fetched.
    pub refresh: Option<String>,
    /// Whether the providers are fetched.
    pub providers: bool,
    /// Whether tasks are swept.
    pub sweep: bool,
}

/// Whether tasks are swept in a round: every thirtieth.
pub fn sweep_due(tick: u64) -> (r: bool)
    ensures
        r == (tick % 30 == 0),
{
    tick % 30 == 0
}

/// What round `tick` of polling does: the active session is always looked at,
/// the providers every tenth round.
pub fn poll_plan(store: &Store, tick: u64) -> (p: PollPlan)
    ensures
        text::opt_text(p.refresh) == text::opt_text(store.active_session),
        p.providers == (tick % 10 == 0),
        p.sweep == (tick % 30 == 0),
{
    PollPlan {
        refresh: text::copy_opt(&store.active_session),
        providers: tick % 10 == 0,
        sweep: sweep_due(tick),
    }
}

/// A worktree that was found on disk.
#[derive(Debug, Clone, PartialEq, Eq)]
pub struct WorktreeInfo {
    pub path: String,
    pub branch: Option<String>,
}

/// A path is that of a worktree: it lies right below `.ade-worktrees`.
pub open spec fn is_worktree_path(p: Seq<char>) -> bool {
    let n = paths::parts(p).len() as int;
    n >= 2 && paths::part(p, n - 2) == ".ade-worktrees"@
}

/// The worktree that is found at a path, where its name is known.
pub open spec fn found_slug(p: Seq<char>) -> Option<Seq<char>> {
    if is_worktree_path(p) {
        paths::name_of(p)
    } else {
        None
    }
}

/// The record of a worktree that was found.
pub open spec fn adopted(r: WorktreeRecord, info: WorktreeInfo, slug: Seq<char>) -> bool {
    &&& r.slug@ == slug
    &&& r.branch@ == (match text::opt_text(info.branch) {
        Some(b) => b,
        None => "ade/"@ + slug,
    })
    &&& r.path@ == info.path@
    &&& r.status == WorktreeStatus::Creating
    &&& r.session_id is None
}

/// A worktree that was found is taken in: none of ours, or one that is known,
/// changes nothing.
pub open spec fn is_new_worktree(was: Store, info: WorktreeInfo) -> bool {
    found_slug(info.path@) matches Some(s) && !was.worktrees@.dom().contains(s)
}

/// `now` is `was` after looking at a worktree that was found.
pub open spec fn looked_at(was: Store, now: Store, info: WorktreeInfo) -> bool {
    if is_new_worktree(was, info) {
        let slug = found_slug(info.path@)->0;
        &&& now == (Store {
            worktrees: now.worktrees,
            active_worktree: now.active_worktree,
            ..was
        })
        &&& now.worktrees@.dom() == was.worktrees@.dom().insert(slug)
        &&& now.worktrees@.remove(slug) == was.worktrees@
        &&& adopted(now.worktrees@[slug], info, slug)
        &&& text::opt_text(now.active_worktree) == (match was.active_worktree {
            Some(a) => Some(a@),
            None => Some(slug),
        })
    } else {
        now == was
    }
}

/// `now` is `was` after looking at all worktrees that were found.
pub open spec fn discovered(was: Store, now: Store, infos: Seq<WorktreeInfo>) -> bool
    decreases infos.len(),
{
    if infos.len() == 0 {
        now == was
    } else {
        exists|mid: Store|
            discovered(was, mid, infos.drop_last()) && #[trigger] looked_at(mid, now, infos.last())
    }
}

/// Takes in a worktree that was found on disk, unless it is known already or
/// is none of ours. Returns whether it was taken in.
pub fn adopt_worktree(store: &mut Store, info: &WorktreeInfo) -> (r: bool)
    ensures
        r == is_new_worktree(*old(store), *info),
        looked_at(*old(store), *final(store), *info),
        old(store).active_is_known() ==> final(store).active_is_known(),
{
    if !paths::below_marker(info.path.as_str(), ".ade-worktrees") {
        return false;
    }
    let slug = match paths::file_name(info.path.as_str()) {
        Some(s) => s,
        None => {
            return false;
        },
    };
    if store.worktrees.contains_key(slug.as_str()) {
        return false;
    }
    let branch = match &info.branch {
        Some(b) => b.clone(),
        None => {
            let mut b = "ade/".to_owned();
            b.append(slug.as_str());
            b
        },
    };
    let record = WorktreeRecord {
        slug,
        branch,
        path: info.path.clone(),
        status: WorktreeStatus::Creating,
        session_id: None,
    };
    assert(adopted(record, *info, found_slug(info.path@)->0));
    let ghost slug = record.slug@;
    store.upsert_worktree(record);
    assert(store.worktrees@.dom() =~= old(store).worktrees@.dom().insert(slug));
    assert(store.worktrees@.remove(slug) =~= old(store).worktrees@);
    true
}

/// Takes in the worktrees that were found on disk, such as those of an earlier
/// run.
pub fn discover_worktrees(store: &mut Store, infos: &Vec<WorktreeInfo>)
    ensures
        discovered(*old(store), *final(store), infos@),
        old(store).active_is_known() ==> final(store).active_is_known(),
{
    let mut i: usize = 0;
    assert(infos@.take(0) =~= Seq::empty());
    while i < infos.len()
        invariant
            i <= infos@.len(),
            discovered(*old(store), *store, infos@.take(i as int)),
            old(store).active_is_known() ==> store.active_is_known(),
        decreases infos@.len() - i,
    {
        assert(infos@.take(i + 1).drop_last() =~= infos@.take(i as int));
        let ghost mid = *store;
        adopt_worktree(store, &infos[i]);
        assert(looked_at(mid, *store, infos@.take(i + 1).last()));
        i += 1;
    }
    assert(infos@.take(infos@.len() as int) =~= infos@);
}

/// Looking for worktrees changes none that is known, forgets none, and finds
/// every one of ours.
pub proof fn discovery_keeps_and_finds(was: Store, now: Store, infos: Seq<WorktreeInfo>)
    requires
        discovered(was, now, infos),
    ensures
        forall|slug: Seq<char>| #[trigger]
            was.worktrees@.dom().contains(slug) ==> now.worktrees@.dom().contains(slug)
                && now.worktrees@[slug] == was.worktrees@[slug],
        forall|i: int|
            0 <= i < infos.len() && found_slug((#[trigger] infos[i]).path@) is Some
                ==> now.worktrees@.dom().contains(found_slug(infos[i].path@)->0),
        was.sessions == now.sessions,
    decreases infos.len(),
{
    if infos.len() > 0 {
        let rest = infos.drop_last();
        let mid = choose|mid: Store|
            discovered(was, mid, rest) && #[trigger] looked_at(mid, now, infos.last());
        discovery_keeps_and_finds(was, mid, rest);
        assert forall|slug: Seq<char>| #[trigger]
            was.worktrees@.dom().contains(slug) implies now.worktrees@.dom().contains(slug)
            && now.worktrees@[slug] == was.worktrees@[slug] by {
            assert(mid.worktrees@.dom().contains(slug));
            if is_new_worktree(mid, infos.last()) {
                assert(now.worktrees@.remove(found_slug(infos.last().path@)->0)[slug]
                    == mid.worktrees@[slug]);
            }
        }
        assert forall|i: int|
            0 <= i < infos.len() && found_slug(
                (#[trigger] infos[i]).path@,
            ) is Some implies now.worktrees@.dom().contains(found_slug(infos[i].path@)->0) by {
            if i < rest.len() {
                assert(rest[i] == infos[i]);
                assert(mid.worktrees@.dom().contains(found_slug(infos[i].path@)->0));
            }
        }
    }
}

/// A message to all goes to each session of a worktree, in order: it is sent
/// where the session is idle and left out where it works. Sessions without a
/// worktree get nothing.
pub proof fn fan_out_reaches_each_worktree(s: LoopState, entries: Seq<(Seq<char>, String)>)
    ensures
        s.fan_steps(entries) == entries.filter(
            |e: (Seq<char>, String)| e.1@.len() > 0,
        ).map_values(
            |e: (Seq<char>, String)|
                if s.store.statuses@.dom().contains(e.0) && !(s.store.statuses@[e.0] is Idle) {
                    FanModel::Skip(e.1@)
                } else {
                    FanModel::Send(
                        e.0,
                        if s.clients@.dom().contains(e.1@) {
                            e.1@
                        } else {
                            Seq::empty()
                        },
                    )
                },
        ),
    decreases entries.len(),
{
    reveal(Seq::filter);
    let p = |e: (Seq<char>, String)| e.1@.len() > 0;
    let f = |e: (Seq<char>, String)|
        if s.store.statuses@.dom().contains(e.0) && !(s.store.statuses@[e.0] is Idle) {
            FanModel::Skip(e.1@)
        } else {
            FanModel::Send(
                e.0,
                if s.clients@.dom().contains(e.1@) {
                    e.1@
                } else {
                    Seq::empty()
                },
            )
        };
    if entries.len() > 0 {
        fan_out_reaches_each_worktree(s, entries.drop_last());
        let some = entries.drop_last().filter(p);
        assert(some.push(entries.last()).map_values(f) =~= some.map_values(f).push(
            f(entries.last()),
        ));
    }
    assert(s.fan_steps(entries) =~= entries.filter(p).map_values(f));
}

/// The sessions of a worktree are those whose scope it is, in order.
pub proof fn worktree_sessions_are_those_in_it(entries: Seq<(Seq<char>, String)>, slug: Seq<char>)
    ensures
        sessions_of(entries, slug) == entries.filter(
            |e: (Seq<char>, String)| e.1@ == slug,
        ).map_values(|e: (Seq<char>, String)| e.0),
{
    sorted_map::kept_is_what_passes(entries, store::owned_by(slug));
    let p = |e: (Seq<char>, String)| store::owned_by(slug)(e.1);
    let q = |e: (Seq<char>, String)| e.1@ == slug;
    assert(p =~= q);
}

/// A session is served by the client of its worktree where that has one, and
/// by the main one, which has no name, otherwise.
pub proof fn sessions_have_their_client(s: LoopState, sid: Seq<char>)
    ensures
        s.clients@.dom().contains(s.store.scope(sid)) ==> s.serving(sid) == s.store.scope(sid),
        !s.clients@.dom().contains(s.store.scope(sid)) ==> s.serving(sid).len() == 0,
        s.diff_target(sid).sid == sid,
        s.diff_target(sid).client == s.serving(sid),
        s.store.scope(sid).len() == 0 ==> s.diff_target(sid).path == s.repo@,
{
}

/// Whatever command is handled, no session, message, worktree, transcript or
/// waiting request changes by it: what it asks for is an action to be done.
pub proof fn commands_only_choose_and_ask(was: LoopState, now: LoopState, cmd: Command, a: Action)
    requires
        handled(was, now, cmd, a),
    ensures
        now.repo == was.repo,
        now.clients == was.clients,
        now.store.sessions == was.store.sessions,
        now.store.messages == was.store.messages,
        now.store.worktrees == was.store.worktrees,
        now.store.transcripts == was.store.transcripts,
        now.store.diffs == was.store.diffs,
        now.store.statuses == was.store.statuses,
        now.store.pending_permissions == was.store.pending_permissions,
        now.store.session_scope == was.store.session_scope,
        !(cmd is SelectSession || cmd is SelectWorktree) ==> now.store.active_session
            == was.store.active_session && now.store.active_worktree == was.store.active_worktree,
        !(cmd is SetModel) ==> now.store.selected_model == was.store.selected_model,
        now.store.errors != was.store.errors ==> cmd is Prompt || cmd is FanOut
            || cmd is PermissionReply,
{
}

/// Words that are sent go to the active session through the client that serves
/// it, unchanged, with the chosen model; without an active session nothing is
/// sent and an error is shown.
pub proof fn prompts_go_to_the_active_session(
    was: LoopState,
    now: LoopState,
    words: String,
    a: Action,
)
    requires
        handled(was, now, Command::Prompt { text: words }, a),
    ensures
        was.store.active_session matches Some(active) ==> now == was && a is Prompt && a->Prompt_sid@
            == active@ && a->Prompt_client@ == was.serving(active@) && a->Prompt_text@ == words@
            && match was.store.selected_model {
            Some(m) => a->Prompt_model matches Some((p, i)) && p@ == m.provider_id@ && i@ == m.id@,
            None => a->Prompt_model is None,
        },
        was.store.active_session is None ==> a is Nothing && now.store.errors@.len() > 0
            && now.store.errors@.last()@ == "no active session — create one first"@,
{
    if was.store.active_session is None {
        let msg = choose|msg: String|
            msg@ == "no active session — create one first"@ && now.store.errors@
                == #[trigger] store::last_of(was.store.errors@.push(msg), 20);
    }
}

/// An answer to a request goes to the session that asked, as it was given; to
/// a request that is not known no answer goes.
pub proof fn answers_go_to_who_asked(
    was: LoopState,
    now: LoopState,
    permission_id: String,
    response: PermissionResponse,
    a: Action,
)
    requires
        handled(was, now, Command::PermissionReply { permission_id, response }, a),
    ensures
        was.store.pending_permissions@.dom().contains(permission_id@) ==> a is Reply
            && a->Reply_sid@ == was.store.pending_permissions@[permission_id@].session_id@
            && a->Reply_permission_id@ == permission_id@ && a->response == response,
        !was.store.pending_permissions@.dom().contains(permission_id@) ==> a is Nothing,
        PermissionResponse::Once.wire() == "once"@,
        PermissionResponse::Always.wire() == "always"@,
        PermissionResponse::Reject.wire() == "reject"@,
{
}

/// Selecting a session that is known makes it active together with the
/// worktree it is in; selecting a worktree makes it active together with its
/// session, where that is known. What is not known changes nothing.
pub proof fn selecting_makes_active(
    was: LoopState,
    now: LoopState,
    cmd: Command,
    a: Action,
)
    requires
        handled(was, now, cmd, a),
    ensures
        cmd matches Command::SelectSession { id } ==> {
            &&& was.store.sessions@.dom().contains(id@) ==> {
                &&& now.store.active_session matches Some(x) && x@ == id@
                &&& was.store.scope(id@).len() == 0 ==> now.store.active_worktree is None
                &&& was.store.scope(id@).len() > 0 ==> (now.store.active_worktree matches Some(w)
                    && w@ == was.store.scope(id@))
                &&& a is Refresh && a->Refresh_sid@ == id@
            }
            &&& !was.store.sessions@.dom().contains(id@) ==> now == was && a is Nothing
        },
        cmd matches Command::SelectWorktree { slug } ==> {
            &&& was.store.worktrees@.dom().contains(slug@) ==> (
            now.store.active_worktree matches Some(w) && w@ == slug@)
            &&& was.store.worktrees@.dom().contains(slug@) ==> match was.store.worktrees@[slug@].session_id {
                Some(x) => if was.store.sessions@.dom().contains(x@) {
                    (now.store.active_session matches Some(y) && y@ == x@) && a is Refresh
                        && a->Refresh_sid@ == x@
                } else {
                    now.store.active_session == was.store.active_session && a is Nothing
                },
                None => now.store.active_session == was.store.active_session && a is Nothing,
            }
            &&& !was.store.worktrees@.dom().contains(slug@) ==> now == was && a is Nothing
        },
{
}

/// Notes are sent to the session they are for, all of them under one heading;
/// without notes nothing is sent.
pub proof fn notes_go_to_their_session(
    was: LoopState,
    now: LoopState,
    session_id: String,
    notes: Vec<review::DiffNote>,
    a: Action,
)
    requires
        handled(was, now, Command::SendNotes { session_id, notes }, a),
    ensures
        now == was,
        notes@.len() == 0 ==> a is Nothing,
        notes@.len() > 0 ==> a is Prompt && a->Prompt_sid@ == session_id@ && a->Prompt_text@
            == "Review feedback — please address each item:\n"@ + review::notes_text(
            review::note_models(notes@),
        ),
{
}

/// Retiring some sessions leaves every other one as it was.
pub proof fn retiring_spares_the_rest(
    was: Store,
    now: Store,
    sids: Seq<Seq<char>>,
    other: Seq<char>,
)
    requires
        all_retired(was, now, sids),
        !sids.contains(other),
    ensures
        now.sessions@.dom().contains(other) == was.sessions@.dom().contains(other),
        was.sessions@.dom().contains(other) ==> now.sessions@[other] == was.sessions@[other],
        was.messages@.dom().contains(other) ==> now.messages@.dom().contains(other)
            && now.messages@[other] == was.messages@[other],
        now.scope(other) == was.scope(other),
        now.waits(other) == was.waits(other),
    decreases sids.len(),
{
    if sids.len() > 0 {
        let mid = choose|mid: Store|
            all_retired(was, mid, sids.drop_last()) && #[trigger] store::session_retired(
                mid,
                now,
                sids.last(),
            );
        assert(!sids.drop_last().contains(other)) by {
            if sids.drop_last().contains(other) {
                let i = choose|i: int|
                    0 <= i < sids.drop_last().len() && sids.drop_last()[i] == other;
                assert(sids[i] == other);
            }
        }
        assert(sids[sids.len() - 1] == sids.last());
        retiring_spares_the_rest(was, mid, sids.drop_last(), other);
        store::retiring_spares_others(mid, now, sids.last(), other);
    }
}

/// A worktree that is found takes its name from its directory and its branch
/// from the listing, or the usual one; it is new only where its name is not
/// taken, and becomes active only where none is.
pub proof fn found_worktrees_are_adopted(was: Store, now: Store, info: WorktreeInfo, slug: Seq<char>)
    requires
        discovered(was, now, seq![info]),
        found_slug(info.path@) == Some(slug),
    ensures
        was.worktrees@.dom().contains(slug) ==> now == was,
        !was.worktrees@.dom().contains(slug) ==> {
            &&& now.worktrees@.dom() == was.worktrees@.dom().insert(slug)
            &&& now.worktrees@[slug].slug@ == slug
            &&& now.worktrees@[slug].path@ == info.path@
            &&& now.worktrees@[slug].session_id is None
            &&& info.branch matches Some(b) ==> now.worktrees@[slug].branch@ == b@
            &&& info.branch is None ==> now.worktrees@[slug].branch@ == "ade/"@ + slug
            &&& was.active_worktree matches Some(x) ==> (now.active_worktree matches Some(y) && x@
                == y@)
            &&& was.active_worktree is None ==> (now.active_worktree matches Some(y) && y@ == slug)
        },
{
    reveal_with_fuel(discovered, 2);
    assert(seq![info].drop_last() =~= Seq::empty());
    assert(seq![info].last() == info);
    let mid = choose|mid: Store|
        discovered(was, mid, seq![info].drop_last()) && #[trigger] looked_at(
            mid,
            now,
            seq![info].last(),
        );
    assert(mid == was);
}

/// A directory is a worktree's where the one above it is the directory of
/// worktrees, and then its last part is the worktree's name.
pub proof fn worktrees_are_found_by_their_place(p: Seq<char>)
    ensures
        found_slug(p) is Some ==> paths::parts(p).len() >= 2 && paths::part(
            p,
            paths::parts(p).len() - 2,
        ) == ".ade-worktrees"@ && found_slug(p)->Some_0 == paths::part(
            p,
            paths::parts(p).len() - 1,
        ),
        paths::parts(p).len() < 2 ==> found_slug(p) is None,
{
}

/// Work on a worktree names it and takes along all its sessions; stopping goes
/// to the active session alone; changes are fetched for every session, each
/// once; and pieces of a file go on as they came.
pub proof fn commands_ask_for_their_subject(
    was: LoopState,
    now: LoopState,
    cmd: Command,
    a: Action,
)
    requires
        handled(was, now, cmd, a),
    ensures
        cmd matches Command::CreateWorktree { slug } ==> a is CreateWorktree
            && a->CreateWorktree_slug@ == slug@,
        cmd matches Command::RetryTask { slug } ==> a is RetryTask && a->RetryTask_slug@ == slug@,
        cmd matches Command::RemoveWorktree { slug } ==> a is RemoveWorktree
            && a->RemoveWorktree_slug@ == slug@ && text::texts(a->RemoveWorktree_sids@)
            == sessions_of(was.store.session_scope.entries(), slug@),
        cmd matches Command::MergeWorktree { slug } ==> a is MergeWorktree
            && a->MergeWorktree_slug@ == slug@ && text::texts(a->MergeWorktree_sids@)
            == sessions_of(was.store.session_scope.entries(), slug@),
        cmd matches Command::Abort ==> match was.store.active_session {
            Some(x) => a is Abort && a->Abort_sid@ == x@ && a->Abort_client@ == was.serving(x@),
            None => a is Nothing,
        },
        cmd matches Command::FetchDiff(sid) ==> a is FetchDiffs && a->targets@.len() == 1
            && a->targets@[0].sid@ == sid@,
        cmd matches Command::FetchAllDiffs ==> a is FetchDiffs && a->targets@.len()
            == was.store.sessions.keys().len() && forall|i: int|
            0 <= i < a->targets@.len() ==> (#[trigger] a->targets@[i]).sid@
                == was.store.sessions.keys()[i],
        cmd matches Command::ApplyHunks { file, hunks } ==> a is ApplyHunks && a->file == file
            && a->hunks == hunks,
        cmd matches Command::CreateSession { title } ==> {
            &&& a is CreateSession
            &&& a->scope@ == match was.store.active_worktree {
                Some(w) => w@,
                None => Seq::empty(),
            }
            &&& text::trim(title@, text::blank()).len() == 0 <==> a->title is None
            &&& a->title matches Some(t) ==> t@ == title@
        },
        cmd matches Command::SetModel { provider_id, model_id } ==> (
        now.store.selected_model matches Some(m) && m.provider_id == provider_id && m.id
            == model_id),
        cmd matches Command::FanOut { text } ==> {
            let to = was.store.session_scope.entries().filter(
                |e: (Seq<char>, String)| e.1@.len() > 0,
            );
            &&& to.len() == 0 ==> a is Nothing
            &&& to.len() > 0 ==> a is FanOut && a->FanOut_text@ == text@ && a->steps@.len()
                == to.len()
        },
{
    if let Command::FanOut { text } = cmd {
        fan_out_reaches_each_worktree(was, was.store.session_scope.entries());
        if a is FanOut {
            assert(a->steps@.map_values(|s: FanStep| s@).len() == a->steps@.len());
        }
    }
    if cmd is FetchAllDiffs {
        assert forall|i: int| 0 <= i < a->targets@.len() implies (#[trigger] a->targets@[i]).sid@
            == was.store.sessions.keys()[i] by {
            assert(a->targets@[i]@ == was.diff_target(was.store.sessions.keys()[i]));
        }
    }
}

/// A worktree lies in the repository's directory of worktrees, under its name;
/// without a name it is the repository.
pub proof fn worktrees_lie_in_the_repository(repo: Seq<char>, scope: Seq<char>)
    requires
        repo.len() > 0,
        repo.last() != '/',
    ensures
        scope.len() == 0 ==> worktree_dir(repo, scope) == repo,
        scope.len() > 0 && scope[0] != '/' ==> worktree_dir(repo, scope) == repo + seq!['/']
            + ".ade-worktrees"@ + seq!['/'] + scope,
{
    reveal_strlit(".ade-worktrees");
}

/// A session that is added is active and in its scope, and becomes the session
/// of that worktree only where it had none.
pub proof fn added_session_is_active(
    was: Store,
    now: Store,
    scope: Seq<char>,
    id: Seq<char>,
    session: Session,
    other: Seq<char>,
)
    requires
        session_added(was, now, scope, id, session),
    ensures
        now.active_session matches Some(x) && x@ == id,
        now.scope(id) == scope,
        now.sessions@.dom().contains(id) && now.sessions@[id] == session,
        other != id && was.sessions@.dom().contains(other) ==> now.sessions@.dom().contains(other)
            && now.sessions@[other] == was.sessions@[other],
        was.worktrees@.dom().contains(scope) && was.worktrees@[scope].session_id is Some
            ==> now.worktrees == was.worktrees,
        scope.len() > 0 && was.worktrees@.dom().contains(scope)
            && was.worktrees@[scope].session_id is None ==> (
        now.worktrees@[scope].session_id matches Some(x) && x@ == id),
        now.messages == was.messages,
        now.transcripts == was.transcripts,
{
}

/// A worktree that was removed is gone and the others stay; where it was the
/// active one the first of those that are left is, or none.
pub proof fn removed_worktree_passes_on(was: Store, now: Store, slug: Seq<char>, other: Seq<char>)
    requires
        worktree_removed(was, now, slug),
        other != slug,
    ensures
        !now.worktrees@.dom().contains(slug),
        now.worktrees@.dom().contains(other) == was.worktrees@.dom().contains(other),
        was.worktrees@.dom().contains(other) ==> now.worktrees@[other] == was.worktrees@[other],
        (was.active_worktree matches Some(x) && x@ == slug) && now.worktrees.keys().len() > 0 ==> (
        now.active_worktree matches Some(y) && y@ == now.worktrees.keys()[0]),
        (was.active_worktree matches Some(x) && x@ == slug) && now.worktrees.keys().len() == 0
            ==> now.active_worktree is None,
        (was.active_worktree matches Some(x) && x@ != slug) ==> (now.active_worktree matches Some(y)
            && y@ == was.active_worktree->Some_0@),
        was.active_worktree is None ==> now.active_worktree is None,
        now.sessions == was.sessions,
{
}

/// What went wrong is shown under what was being done.
pub proof fn troubles_have_their_heading(slug: String)
    ensures
        Trouble::Client.heading() == "worktree client failed: "@,
        Trouble::CreateSession.heading() == "create session failed: "@,
        Trouble::CreateWorktree.heading() == "create worktree failed: "@,
        Trouble::RemoveWorktree.heading() == "remove worktree failed: "@,
        (Trouble::Merge { slug }).heading() == "merge "@ + slug@ + " failed: "@,
        Trouble::Diff.heading() == "diff fetch failed: "@,
        Trouble::Prompt.heading() == "prompt failed: "@,
        Trouble::Abort.heading() == "abort failed: "@,
{
}

} // verus!
