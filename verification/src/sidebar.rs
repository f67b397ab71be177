//! The list of worktrees and sessions beside the chat.
use crate::container::{BoxModel, ContainerState};
use crate::order;
use crate::runtime::Command;
use crate::session::WorktreeStatus;
use crate::sorted_map::StrMap;
use crate::store::Store;
use crate::task;
use crate::text;
use crate::theme;
use crate::theme::{BAD_COLOR, OK_COLOR, WARN_COLOR};
use vstd::prelude::*;
use vstd::string::*;

verus! {

/// What a container's state is called.
pub open spec fn state_word(s: BoxModel) -> Seq<char> {
    match s {
        BoxModel::Missing => "missing"@,
        BoxModel::Pulling => "pulling…"@,
        BoxModel::Running => "running"@,
        BoxModel::Paused => "paused"@,
        BoxModel::Stopped => "stopped"@,
        BoxModel::Error(_) => "error"@,
    }
}

/// What a container's state is called.
pub fn vm_label(state: &ContainerState) -> (s: &'static str)
    ensures
        s@ == state_word(state@),
{
    match state {
        ContainerState::Missing => "missing",
        ContainerState::Pulling => "pulling…",
        ContainerState::Running => "running",
        ContainerState::Paused => "paused",
        ContainerState::Stopped => "stopped",
        ContainerState::Error(_) => "error",
    }
}

/// The colour of a container's state; none for one in which nothing goes on.
pub open spec fn state_color(s: BoxModel) -> Option<u32> {
    match s {
        BoxModel::Running => Some(OK_COLOR),
        BoxModel::Error(_) => Some(BAD_COLOR),
        BoxModel::Pulling => Some(WARN_COLOR),
        BoxModel::Missing => None,
        BoxModel::Paused => None,
        BoxModel::Stopped => None,
    }
}

/// The colour of a container's state.
pub fn vm_dot(state: &ContainerState) -> (c: Option<u32>)
    ensures
        c == state_color(state@),
{
    match state {
        ContainerState::Running => Some(OK_COLOR),
        ContainerState::Error(_) => Some(BAD_COLOR),
        ContainerState::Pulling => Some(WARN_COLOR),
        ContainerState::Missing => None,
        ContainerState::Paused => None,
        ContainerState::Stopped => None,
    }
}

/// A short text with a coloured dot.
#[derive(Debug, Clone, PartialEq, Eq)]
pub struct Badge {
    pub label: String,
    pub dot: u32,
}

/// What a [`Badge`] holds.
pub struct BadgeModel {
    pub label: Seq<char>,
    pub dot: u32,
}

impl View for Badge {
    type V = BadgeModel;

    open spec fn view(&self) -> BadgeModel {
        BadgeModel { label: self.label@, dot: self.dot }
    }
}

/// What an optional badge holds.
pub open spec fn opt_badge(b: Option<Badge>) -> Option<BadgeModel> {
    match b {
        Some(x) => Some(x@),
        None => None,
    }
}

/// The badge of a worktree: its container's state, where something goes on.
pub open spec fn badge_of(states: Map<Seq<char>, ContainerState>, slug: Seq<char>) -> Option<
    BadgeModel,
> {
    if !states.dom().contains(slug) {
        None
    } else {
        match state_color(states[slug]@) {
            Some(dot) => Some(
                BadgeModel { label: task::capped("ctr:"@ + state_word(states[slug]@), 28), dot },
            ),
            None => None,
        }
    }
}

/// The badge of a worktree.
pub fn vm_badge(states: &StrMap<ContainerState>, slug: &str) -> (b: Option<Badge>)
    ensures
        opt_badge(b) == badge_of(states@, slug@),
{
    match states.get(slug) {
        None => None,
        Some(state) => match vm_dot(state) {
            None => None,
            Some(dot) => {
                let mut label = "ctr:".to_owned();
                label.append(vm_label(state));
                Some(Badge { label: theme::truncate(label.as_str(), 28), dot })
            },
        },
    }
}

/// What stands above the chat on a machine without containers.
pub fn vm_banner(vm_available: bool) -> (b: Option<&'static str>)
    ensures
        vm_available ==> b is None,
        !vm_available ==> (b matches Some(t) && t@ == "Podman unavailable — Host mode"@),
{
    if vm_available {
        None
    } else {
        Some("Podman unavailable — Host mode")
    }
}

/// One row of the list.
#[derive(Debug, Clone, PartialEq, Eq)]
pub enum Row {
    Worktree { slug: String, label: String, active: bool, dot: Option<u32>, badge: Option<Badge> },
    Session { sid: String, title: String, indent: bool, active: bool, dot: Option<u32> },
}

/// What a [`Row`] holds.
pub enum RowModel {
    Worktree {
        slug: Seq<char>,
        label: Seq<char>,
        active: bool,
        dot: Option<u32>,
        badge: Option<BadgeModel>,
    },
    Session { sid: Seq<char>, title: Seq<char>, indent: bool, active: bool, dot: Option<u32> },
}

impl View for Row {
    type V = RowModel;

    open spec fn view(&self) -> RowModel {
        match self {
            Row::Worktree { slug, label, active, dot, badge } => RowModel::Worktree {
                slug: slug@,
                label: label@,
                active: *active,
                dot: *dot,
                badge: opt_badge(*badge),
            },
            Row::Session { sid, title, indent, active, dot } => RowModel::Session {
                sid: sid@,
                title: title@,
                indent: *indent,
                active: *active,
                dot: *dot,
            },
        }
    }
}

/// What some rows hold.
pub open spec fn rows_of(v: Seq<Row>) -> Seq<RowModel> {
    v.map_values(|r: Row| r@)
}

proof fn rows_push(v: Seq<Row>, r: Row)
    ensures
        rows_of(v.push(r)) == rows_of(v).push(r@),
{
    assert(rows_of(v.push(r)) =~= rows_of(v).push(r@));
}

/// The colour of a session: it waits for a decision, or it works.
pub open spec fn session_color(store: Store, sid: Seq<char>) -> Option<u32> {
    if store.waits(sid) {
        Some(WARN_COLOR)
    } else if store.works(sid) {
        Some(OK_COLOR)
    } else {
        None
    }
}

/// The colour of a session.
pub fn session_dot(store: &Store, sid: &str) -> (c: Option<u32>)
    ensures
        c == session_color(*store, sid@),
{
    if store.has_pending(sid) {
        return Some(WARN_COLOR);
    }
    if store.is_working(sid) {
        return Some(OK_COLOR);
    }
    None
}

/// The colour of a worktree, by its state on the dashboard.
pub open spec fn worktree_color(s: WorktreeStatus) -> Option<u32> {
    match s {
        WorktreeStatus::Working => Some(OK_COLOR),
        WorktreeStatus::NeedsYou => Some(WARN_COLOR),
        WorktreeStatus::Creating => None,
        WorktreeStatus::Done => None,
    }
}

/// The colour of a worktree.
pub fn worktree_dot(store: &Store, slug: &str) -> (c: Option<u32>)
    ensures
        c == worktree_color(store.status_of(slug@)),
{
    match store.worktree_status(slug) {
        WorktreeStatus::Working => Some(OK_COLOR),
        WorktreeStatus::NeedsYou => Some(WARN_COLOR),
        WorktreeStatus::Creating => None,
        WorktreeStatus::Done => None,
    }
}

/// The title of a session, cut after `max` characters.
pub open spec fn title_of(store: Store, sid: Seq<char>, max: int) -> Seq<char> {
    if store.sessions@.dom().contains(sid) {
        task::capped(store.sessions@[sid].title@, max)
    } else {
        "(gone)"@
    }
}

/// The row of a session.
pub open spec fn session_row_of(store: Store, sid: Seq<char>, max: int, indent: bool) -> RowModel {
    RowModel::Session {
        sid,
        title: title_of(store, sid, max),
        indent,
        active: text::opt_text(store.active_session) == Some(sid),
        dot: session_color(store, sid),
    }
}

fn is_one(s: &Option<String>, t: &str) -> (r: bool)
    ensures
        r == (text::opt_text(*s) == Some(t@)),
{
    match s {
        Some(x) => text::same(x.as_str(), t),
        None => false,
    }
}

/// The row of a session.
pub fn session_row(store: &Store, sid: &str, max: usize, indent: bool) -> (r: Row)
    ensures
        r@ == session_row_of(*store, sid@, max as int, indent),
{
    let title = match store.sessions.get(sid) {
        Some(s) => theme::truncate(s.title.as_str(), max),
        None => "(gone)".to_owned(),
    };
    Row::Session {
        sid: sid.to_owned(),
        title,
        indent,
        active: is_one(&store.active_session, sid),
        dot: session_dot(store, sid),
    }
}

/// The row of a worktree.
pub open spec fn worktree_row_of(
    store: Store,
    states: Map<Seq<char>, ContainerState>,
    slug: Seq<char>,
) -> RowModel {
    RowModel::Worktree {
        slug,
        label: "⑂ "@ + slug,
        active: text::opt_text(store.active_worktree) == Some(slug),
        dot: worktree_color(store.status_of(slug)),
        badge: badge_of(states, slug),
    }
}

/// The row of a worktree.
pub fn worktree_row(store: &Store, states: &StrMap<ContainerState>, slug: &str) -> (r: Row)
    ensures
        r@ == worktree_row_of(*store, states@, slug@),
{
    let mut label = "⑂ ".to_owned();
    label.append(slug);
    Row::Worktree {
        slug: slug.to_owned(),
        label,
        active: is_one(&store.active_worktree, slug),
        dot: worktree_dot(store, slug),
        badge: vm_badge(states, slug),
    }
}

/// The sessions of a scope, the latest changed first.
pub open spec fn listed(store: Store, scope: Seq<char>) -> Seq<Seq<char>> {
    let mine = store.in_scope(store.sessions.keys(), scope);
    order::sorted(mine, store.recencies(mine))
}

/// The rows of some sessions.
pub open spec fn session_rows_of(store: Store, sids: Seq<Seq<char>>, max: int, indent: bool) -> Seq<
    RowModel,
> {
    sids.map_values(|sid: Seq<char>| session_row_of(store, sid, max, indent))
}

/// The rows of some worktrees, each followed by its sessions.
pub open spec fn worktree_rows_of(
    store: Store,
    states: Map<Seq<char>, ContainerState>,
    slugs: Seq<Seq<char>>,
) -> Seq<RowModel>
    decreases slugs.len(),
{
    if slugs.len() == 0 {
        Seq::empty()
    } else {
        worktree_rows_of(store, states, slugs.drop_last()).push(
            worktree_row_of(store, states, slugs.last()),
        ) + session_rows_of(store, listed(store, slugs.last()), 20, true)
    }
}

/// All rows: the worktrees in the order of their names, each followed by its
/// sessions, then the sessions without a worktree.
pub open spec fn sidebar_of(store: Store, states: Map<Seq<char>, ContainerState>) -> Seq<RowModel> {
    worktree_rows_of(store, states, store.worktrees.keys()) + session_rows_of(
        store,
        listed(store, Seq::empty()),
        24,
        false,
    )
}

fn push_sessions(rows: &mut Vec<Row>, store: &Store, scope: &str, max: usize, indent: bool)
    ensures
        rows_of(final(rows)@) == rows_of(old(rows)@) + session_rows_of(
            *store,
            listed(*store, scope@),
            max as int,
            indent,
        ),
{
    let sids = store.sessions_in_scope(scope);
    let ghost all = listed(*store, scope@);
    proof {
        let mine = store.in_scope(store.sessions.keys(), scope@);
        order::sorted_is_unique(mine, store.recencies(mine), text::texts(sids@));
    }
    let ghost before = rows_of(rows@);
    let ghost want = session_rows_of(*store, all, max as int, indent);
    let mut i: usize = 0;
    assert(before + want.take(0) =~= before);
    while i < sids.len()
        invariant
            i <= sids@.len(),
            all == text::texts(sids@),
            want == session_rows_of(*store, all, max as int, indent),
            rows_of(rows@) == before + want.take(i as int),
        decreases sids@.len() - i,
    {
        let row = session_row(store, sids[i].as_str(), max, indent);
        proof {
            rows_push(rows@, row);
            assert(want[i as int] == row@);
            assert(want.take(i + 1) =~= want.take(i as int).push(row@));
            assert(before + want.take(i as int).push(row@) =~= (before + want.take(i as int)).push(
                row@,
            ));
        }
        rows.push(row);
        i += 1;
    }
    assert(want.take(want.len() as int) =~= want);
}

/// All rows of the list.
pub fn sidebar_rows(store: &Store, states: &StrMap<ContainerState>) -> (rows: Vec<Row>)
    ensures
        rows_of(rows@) == sidebar_of(*store, states@),
{
    let n: usize = store.worktrees.len();
    let ghost slugs = store.worktrees.keys();
    let mut rows: Vec<Row> = Vec::new();
    let mut i: usize = 0;
    assert(slugs.take(0) =~= Seq::empty());
    assert(rows_of(rows@) =~= Seq::empty());
    while i < n
        invariant
            i <= n == slugs.len(),
            n == store.worktrees.entries().len(),
            slugs == store.worktrees.keys(),
            rows_of(rows@) == worktree_rows_of(*store, states@, slugs.take(i as int)),
        decreases n - i,
    {
        assert(slugs.take(i + 1).drop_last() =~= slugs.take(i as int));
        let slug = store.worktrees.key_at(i);
        let row = worktree_row(store, states, slug.as_str());
        proof {
            rows_push(rows@, row);
        }
        rows.push(row);
        push_sessions(&mut rows, store, slug.as_str(), 20, true);
        i += 1;
    }
    assert(slugs.take(slugs.len() as int) =~= slugs);
    proof {
        reveal_strlit("");
        assert(""@ =~= Seq::empty());
    }
    push_sessions(&mut rows, store, "", 24, false);
    rows
}

/// The error that is shown above the chat: the last one, cut.
pub fn error_strip(store: &Store) -> (e: Option<String>)
    ensures
        store.errors@.len() == 0 ==> e is None,
        store.errors@.len() > 0 ==> text::opt_text(e) == Some(
            task::capped(store.errors@.last()@, 200),
        ),
{
    let n: usize = store.errors.len();
    if n == 0 {
        None
    } else {
        Some(theme::truncate(store.errors[n - 1].as_str(), 200))
    }
}

/// The name of the `n`th task.
pub open spec fn auto_name(n: nat) -> Seq<char> {
    "task-"@ + text::dec(n)
}

fn name_task(n: u64) -> (s: String)
    ensures
        s@ == auto_name(n as nat),
{
    let mut s = "task-".to_owned();
    s.append(text::decimal(n).as_str());
    s
}

/// The worktree to create for what was typed: under that name, as typed, or
/// under a name by the number of worktrees where that is blank.
pub fn worktree_to_create(store: &Store, typed: &str) -> (c: Command)
    requires
        store.worktrees.entries().len() < usize::MAX,
    ensures
        c matches Command::CreateWorktree { slug } && slug@ == (if text::trim(
            typed@,
            text::blank(),
        ).len() == 0 {
            auto_name(store.worktrees.entries().len() + 1)
        } else {
            typed@
        }),
{
    let n: usize = store.worktrees.len();
    let slug = if text::trimmed(typed).as_str().is_empty() {
        name_next(n)
    } else {
        typed.to_owned()
    };
    Command::CreateWorktree { slug }
}

fn name_next(n: usize) -> (s: String)
    requires
        n < usize::MAX,
    ensures
        s@ == auto_name((n + 1) as nat),
{
    name_task(n as u64 + 1)
}

/// The worktree to create from the dialog: under the name that was typed,
/// without the white space around it, or under a name by the number of
/// worktrees. Nothing while the dialog is closed.
pub fn create_worktree_from_dialog(store: &Store, open: bool, typed: &str) -> (c: Option<Command>)
    requires
        store.worktrees.entries().len() < usize::MAX,
    ensures
        match c {
            None => !open,
            Some(cmd) => open && (cmd matches Command::CreateWorktree { slug } && slug@ == (
            if text::trim(typed@, text::blank()).len() == 0 {
                auto_name(store.worktrees.entries().len() + 1)
            } else {
                text::trim(typed@, text::blank())
            })),
        },
{
    if !open {
        return None;
    }
    let n: usize = store.worktrees.len();
    let name = text::trimmed(typed);
    let slug = if name.as_str().is_empty() {
        name_next(n)
    } else {
        name
    };
    Some(Command::CreateWorktree { slug })
}

/// What removing a worktree asks for: its machine is stopped where its
/// directory is known, and the worktree is removed.
pub fn remove_clicked(store: &Store, slug: &str) -> (r: (Option<String>, Command))
    ensures
        text::opt_text(r.0) == (if store.worktrees@.dom().contains(slug@) {
            Some(store.worktrees@[slug@].path@)
        } else {
            None
        }),
        r.1 matches Command::RemoveWorktree { slug: s } && s@ == slug@,
{
    let path = match store.worktrees.get(slug) {
        Some(w) => Some(w.path.clone()),
        None => None,
    };
    (path, Command::RemoveWorktree { slug: slug.to_owned() })
}

/// Every worktree has its row.
pub proof fn every_worktree_has_a_row(
    store: Store,
    states: Map<Seq<char>, ContainerState>,
    slugs: Seq<Seq<char>>,
    i: int,
)
    requires
        0 <= i < slugs.len(),
    ensures
        worktree_rows_of(store, states, slugs).contains(worktree_row_of(store, states, slugs[i])),
    decreases slugs.len(),
{
    let rest = slugs.drop_last();
    let head = worktree_rows_of(store, states, rest);
    let now = worktree_rows_of(store, states, slugs);
    if i < rest.len() {
        every_worktree_has_a_row(store, states, rest, i);
        assert(rest[i] == slugs[i]);
        let k = choose|k: int| 0 <= k < head.len() && head[k] == worktree_row_of(store, states, slugs[i]);
        assert(now[k] == head[k]);
    } else {
        assert(now[head.len() as int] == worktree_row_of(store, states, slugs.last()));
    }
}

/// The rows of the worktrees are those of each, one worktree after the other:
/// its own row, and then one for each of its sessions.
pub proof fn worktree_rows_add_up(
    store: Store,
    states: Map<Seq<char>, ContainerState>,
    a: Seq<Seq<char>>,
    b: Seq<Seq<char>>,
    slug: Seq<char>,
)
    ensures
        worktree_rows_of(store, states, a + b) == worktree_rows_of(store, states, a)
            + worktree_rows_of(store, states, b),
        worktree_rows_of(store, states, seq![slug]) == seq![worktree_row_of(store, states, slug)]
            + listed(store, slug).map_values(
            |sid: Seq<char>| session_row_of(store, sid, 20, true),
        ),
    decreases b.len(),
{
    reveal_with_fuel(worktree_rows_of, 2);
    assert(seq![slug].drop_last() =~= Seq::empty());
    assert(worktree_rows_of(store, states, seq![slug]) =~= seq![
        worktree_row_of(store, states, slug),
    ] + listed(store, slug).map_values(|sid: Seq<char>| session_row_of(store, sid, 20, true)));
    if b.len() == 0 {
        assert(a + b =~= a);
        assert(worktree_rows_of(store, states, a) + worktree_rows_of(store, states, b)
            =~= worktree_rows_of(store, states, a));
    } else {
        assert((a + b).drop_last() =~= a + b.drop_last());
        worktree_rows_add_up(store, states, a, b.drop_last(), slug);
        assert(worktree_rows_of(store, states, a + b) =~= worktree_rows_of(store, states, a)
            + worktree_rows_of(store, states, b));
    }
}

/// A session's row names the session and its title, says whether it is the
/// active one, and marks one that waits for an answer, else one that works.
pub proof fn session_row_shows_the_session(store: Store, sid: Seq<char>, max: int, indent: bool)
    requires
        0 <= max,
    ensures
        ({
            let r = session_row_of(store, sid, max, indent);
            &&& r is Session
            &&& r->sid == sid
            &&& r->indent == indent
            &&& r->Session_active <==> (store.active_session matches Some(x) && x@ == sid)
            &&& store.waits(sid) ==> r->Session_dot == Some(WARN_COLOR)
            &&& !store.waits(sid) && store.works(sid) ==> r->Session_dot == Some(OK_COLOR)
            &&& !store.waits(sid) && !store.works(sid) ==> r->Session_dot is None
            &&& store.sessions@.dom().contains(sid) && store.sessions@[sid].title@.len() <= max
                ==> r->title == store.sessions@[sid].title@
            &&& !store.sessions@.dom().contains(sid) ==> r->title == "(gone)"@
        }),
{
}

/// A worktree's row names it, says whether it is the active one, and marks one
/// that needs you or works.
pub proof fn worktree_row_shows_the_worktree(
    store: Store,
    states: Map<Seq<char>, ContainerState>,
    slug: Seq<char>,
)
    ensures
        ({
            let r = worktree_row_of(store, states, slug);
            &&& r is Worktree
            &&& r->slug == slug
            &&& r->label == "⑂ "@ + slug
            &&& r->Worktree_active <==> (store.active_worktree matches Some(x) && x@ == slug)
            &&& store.status_of(slug) == WorktreeStatus::NeedsYou ==> r->Worktree_dot == Some(
                WARN_COLOR,
            )
            &&& store.status_of(slug) == WorktreeStatus::Working ==> r->Worktree_dot == Some(
                OK_COLOR,
            )
            &&& store.status_of(slug) == WorktreeStatus::Done || store.status_of(slug)
                == WorktreeStatus::Creating ==> r->Worktree_dot is None
            &&& !states.dom().contains(slug) ==> r->badge is None
            &&& states.dom().contains(slug) ==> (r->badge is Some <==> states[slug]@ is Running
                || states[slug]@ is Error || states[slug]@ is Pulling)
        }),
{
}

/// The sidebar shows the worktrees first and then, not indented, the sessions
/// that are in none.
pub proof fn sidebar_shows_worktrees_then_sessions(
    store: Store,
    states: Map<Seq<char>, ContainerState>,
)
    ensures
        ({
            let n = worktree_rows_of(store, states, store.worktrees.keys()).len() as int;
            let all = sidebar_of(store, states);
            let loose = listed(store, Seq::empty());
            &&& all.len() == n + loose.len()
            &&& all.take(n) == worktree_rows_of(store, states, store.worktrees.keys())
            &&& forall|i: int|
                0 <= i < loose.len() ==> #[trigger] all[n + i] == session_row_of(
                    store,
                    loose[i],
                    24,
                    false,
                )
        }),
{
    let n = worktree_rows_of(store, states, store.worktrees.keys()).len() as int;
    assert(sidebar_of(store, states).take(n) =~= worktree_rows_of(
        store,
        states,
        store.worktrees.keys(),
    ));
}

/// Worktrees that are named by number have names that differ.
pub proof fn numbered_worktrees_differ(a: nat, b: nat)
    requires
        a != b,
    ensures
        auto_name(a) != auto_name(b),
        auto_name(a) == "task-"@ + text::dec(a),
{
    if auto_name(a) == auto_name(b) {
        let n = "task-"@.len() as int;
        assert(auto_name(a).skip(n) =~= text::dec(a));
        assert(auto_name(b).skip(n) =~= text::dec(b));
        text::dec_injective(a, b);
    }
}

} // verus!
