//! The bars around the chat: connection and models, activity, status, tabs.
use crate::context;
use crate::context::{ContextSection, SectionKind, SectionModel};
use crate::palette::RightTab;
use crate::runtime::Command;
use crate::session::{ConnState, ProviderInfo, WorktreeStatus};
use crate::sorted_map::StrMap;
use crate::store::Store;
use crate::task;
use crate::text;
use crate::theme;
use crate::theme::{ACCENT_COLOR, BAD_COLOR, HEAD_COLOR, OK_COLOR, WARN_COLOR};
use vstd::prelude::*;
use vstd::string::*;

verus! {

/// The colour and the name of the connection's state.
pub fn connection(conn: ConnState) -> (r: (u32, &'static str))
    ensures
        match conn {
            ConnState::Connected => r.0 == OK_COLOR && r.1@ == "connected"@,
            ConnState::Connecting => r.0 == WARN_COLOR && r.1@ == "connecting…"@,
            ConnState::Disconnected => r.0 == BAD_COLOR && r.1@ == "disconnected"@,
        },
{
    match conn {
        ConnState::Connected => (OK_COLOR, "connected"),
        ConnState::Connecting => (WARN_COLOR, "connecting…"),
        ConnState::Disconnected => (BAD_COLOR, "disconnected"),
    }
}

/// What a list of pairs of strings holds.
pub open spec fn pairs_of(v: Seq<(String, String)>) -> Seq<(Seq<char>, Seq<char>)> {
    v.map_values(|p: (String, String)| (p.0@, p.1@))
}

/// The models of a provider, each under the provider's identity.
pub open spec fn models_of(p: ProviderInfo) -> Seq<(Seq<char>, Seq<char>)> {
    p.models@.map_values(|m: (String, String)| (p.provider_id@, m.0@))
}

/// The models of some providers, one after the other.
pub open spec fn all_models(providers: Seq<ProviderInfo>) -> Seq<(Seq<char>, Seq<char>)>
    decreases providers.len(),
{
    if providers.len() == 0 {
        Seq::empty()
    } else {
        all_models(providers.drop_last()) + models_of(providers.last())
    }
}

fn push_models(out: &mut Vec<(String, String)>, p: &ProviderInfo)
    ensures
        pairs_of(final(out)@) == pairs_of(old(out)@) + models_of(*p),
{
    let ghost before = pairs_of(out@);
    let ghost want = models_of(*p);
    let mut i: usize = 0;
    assert(before + want.take(0) =~= before);
    while i < p.models.len()
        invariant
            i <= p.models@.len(),
            want == models_of(*p),
            pairs_of(out@) == before + want.take(i as int),
        decreases p.models@.len() - i,
    {
        let ghost was = out@;
        let m = (p.provider_id.clone(), p.models[i].0.clone());
        out.push(m);
        assert(pairs_of(out@) =~= pairs_of(was).push((m.0@, m.1@)));
        assert(want.take(i + 1) =~= want.take(i as int).push(want[i as int]));
        assert(before + want.take(i + 1) =~= (before + want.take(i as int)).push(want[i as int]));
        i += 1;
    }
    assert(want.take(want.len() as int) =~= want);
}

/// All models, each with its provider.
pub fn flat_models(store: &Store) -> (out: Vec<(String, String)>)
    ensures
        pairs_of(out@) == all_models(store.providers@),
{
    let ghost all = store.providers@;
    let mut out: Vec<(String, String)> = Vec::new();
    let mut i: usize = 0;
    assert(all.take(0) =~= Seq::empty());
    assert(pairs_of(out@) =~= Seq::empty());
    while i < store.providers.len()
        invariant
            i <= store.providers@.len(),
            all == store.providers@,
            pairs_of(out@) == all_models(all.take(i as int)),
        decreases store.providers@.len() - i,
    {
        assert(all.take(i + 1).drop_last() =~= all.take(i as int));
        push_models(&mut out, &store.providers[i]);
        i += 1;
    }
    assert(all.take(all.len() as int) =~= all);
    out
}

/// Which of the models is chosen.
#[derive(Debug, Clone, Copy, PartialEq, Eq)]
pub struct ModelPicker {
    pub model_ix: Option<usize>,
}

impl ModelPicker {
    /// Chooses a model, as the command that says so; one that is not there
    /// changes nothing.
    pub fn pick_model(&mut self, ix: usize, models: &Vec<(String, String)>) -> (c: Option<Command>)
        ensures
            ix < models@.len() ==> final(self).model_ix == Some(ix) && c is Some && (
            c->0 matches Command::SetModel { provider_id, model_id } && provider_id@
                == pairs_of(models@)[ix as int].0 && model_id@ == pairs_of(models@)[ix as int].1),
            ix >= models@.len() ==> c is None && *final(self) == *old(self),
    {
        if ix >= models.len() {
            return None;
        }
        self.model_ix = Some(ix);
        let m = &models[ix];
        Some(Command::SetModel { provider_id: m.0.clone(), model_id: m.1.clone() })
    }

    /// The name of the chosen model.
    pub fn model_label(&self, models: &Vec<(String, String)>) -> (s: String)
        ensures
            s@ == (match self.model_ix {
                Some(ix) if ix < models@.len() => pairs_of(models@)[ix as int].0 + "/"@ + pairs_of(
                    models@,
                )[ix as int].1,
                _ => "model: default"@,
            }),
    {
        if let Some(ix) = self.model_ix {
            if ix < models.len() {
                let m = &models[ix];
                let mut s = m.0.clone();
                s.append("/");
                s.append(m.1.as_str());
                return s;
            }
        }
        "model: default".to_owned()
    }

    /// The model behind the chosen one, going round; the first where none is
    /// chosen. Nothing where there are no models.
    pub fn next(&self, n: usize) -> (r: Option<usize>)
        requires
            self.model_ix matches Some(i) ==> i < usize::MAX,
        ensures
            n == 0 ==> r is None,
            n > 0 ==> r == Some(
                match self.model_ix {
                    Some(i) => ((i + 1) % (n as int)) as usize,
                    None => 0,
                },
            ),
            r matches Some(i) ==> i < n,
    {
        if n == 0 {
            return None;
        }
        match self.model_ix {
            Some(i) => Some((i + 1) % n),
            None => Some(0),
        }
    }

    /// The model before the chosen one, going round; the last where none is
    /// chosen. Nothing where there are no models.
    pub fn prev(&self, n: usize) -> (r: Option<usize>)
        requires
            self.model_ix matches Some(i) ==> i + n <= usize::MAX,
        ensures
            n == 0 ==> r is None,
            n > 0 ==> r == Some(
                match self.model_ix {
                    Some(i) => ((i + n - 1) % (n as int)) as usize,
                    None => (n - 1) as usize,
                },
            ),
            r matches Some(i) ==> i < n,
    {
        if n == 0 {
            return None;
        }
        match self.model_ix {
            Some(i) => Some((i + n - 1) % n),
            None => Some(n - 1),
        }
    }
}

/// Going one model on and one back leads to the same model.
pub proof fn next_and_prev_undo_each_other(i: int, n: int)
    requires
        0 <= i < n,
    ensures
        (((i + 1) % n) + n - 1) % n == i,
        (((i + n - 1) % n) + 1) % n == i,
{
    if i + 1 == n {
        assert((i + 1) % n == 0) by (nonlinear_arith)
            requires
                i + 1 == n,
                n > 0,
        ;
        assert((n - 1) % n == n - 1) by (nonlinear_arith)
            requires
                n > 0,
        ;
    } else {
        assert((i + 1) % n == i + 1) by (nonlinear_arith)
            requires
                0 <= i,
                i + 1 < n,
        ;
        assert((i + n) % n == i) by (nonlinear_arith)
            requires
                0 <= i < n,
        ;
    }
    if i == 0 {
        assert((n - 1) % n == n - 1) by (nonlinear_arith)
            requires
                n > 0,
        ;
        assert(n % n == 0) by (nonlinear_arith)
            requires
                n > 0,
        ;
    } else {
        assert((i + n - 1) % n == i - 1) by (nonlinear_arith)
            requires
                0 < i < n,
        ;
        assert(i % n == i) by (nonlinear_arith)
            requires
                0 <= i < n,
        ;
    }
}

/// The label of the button between chat and terminal.
pub fn term_label(show_terminal: bool) -> (s: &'static str)
    ensures
        s@ == (if show_terminal {
            "Chat"@
        } else {
            "Term"@
        }),
{
    if show_terminal {
        "Chat"
    } else {
        "Term"
    }
}

/// The program of an agent is there.
pub open spec fn is_present(ok: Map<Seq<char>, bool>, name: Seq<char>) -> bool {
    ok.dom().contains(name) && ok[name]
}

/// The name of an agent with a sign that its program is there, and its colour.
pub open spec fn tick_of(ok: Map<Seq<char>, bool>, name: Seq<char>, dark: bool) -> (Seq<char>, u32) {
    if is_present(ok, name) {
        (name + " ●"@, OK_COLOR)
    } else {
        (
            name + " ○"@,
            if dark {
                0x8b8b93ffu32
            } else {
                0x5f6368ffu32
            },
        )
    }
}

/// What some ticks hold.
pub open spec fn ticks_of(v: Seq<(String, u32)>) -> Seq<(Seq<char>, u32)> {
    v.map_values(|t: (String, u32)| (t.0@, t.1))
}

/// Whether the program of an agent is there.
pub fn present(ok: &StrMap<bool>, name: &str) -> (r: bool)
    ensures
        r == is_present(ok@, name@),
{
    match ok.get(name) {
        Some(b) => *b,
        None => false,
    }
}

/// The agents, each with a sign that its program is there.
pub fn render_agent_ticks(names: &Vec<String>, ok: &StrMap<bool>, dark: bool) -> (out: Vec<
    (String, u32),
>)
    ensures
        ticks_of(out@) == text::texts(names@).map_values(
            |n: Seq<char>| tick_of(ok@, n, dark),
        ),
{
    let ghost want = text::texts(names@).map_values(|n: Seq<char>| tick_of(ok@, n, dark));
    let mut out: Vec<(String, u32)> = Vec::new();
    let mut i: usize = 0;
    assert(ticks_of(out@) =~= want.take(0));
    while i < names.len()
        invariant
            i <= names@.len(),
            want == text::texts(names@).map_values(|n: Seq<char>| tick_of(ok@, n, dark)),
            ticks_of(out@) == want.take(i as int),
        decreases names@.len() - i,
    {
        let here = present(ok, names[i].as_str());
        let mut label = names[i].clone();
        label.append(
            if here {
                " ●"
            } else {
                " ○"
            },
        );
        let color: u32 = if here {
            OK_COLOR
        } else {
            theme::muted_for(dark)
        };
        let ghost was = out@;
        let tick = (label, color);
        assert(want[i as int] == (tick.0@, tick.1));
        out.push(tick);
        assert(ticks_of(out@) =~= ticks_of(was).push((tick.0@, tick.1)));
        assert(want.take(i + 1) =~= want.take(i as int).push(want[i as int]));
        i += 1;
    }
    assert(want.take(want.len() as int) =~= want);
    out
}

/// The agent that a task is started with: the first whose program is there.
pub fn pick_run_agent(names: &Vec<String>, ok: &StrMap<bool>) -> (r: Option<String>)
    ensures
        match r {
            Some(a) => exists|i: int|
                0 <= i < names@.len() && #[trigger] text::texts(names@)[i] == a@ && is_present(
                    ok@,
                    a@,
                ) && forall|j: int|
                    0 <= j < i ==> !is_present(ok@, #[trigger] text::texts(names@)[j]),
            None => forall|j: int|
                0 <= j < names@.len() ==> !is_present(ok@, #[trigger] text::texts(names@)[j]),
        },
{
    let mut i: usize = 0;
    while i < names.len()
        invariant
            i <= names@.len(),
            forall|j: int| 0 <= j < i ==> !is_present(ok@, #[trigger] text::texts(names@)[j]),
        decreases names@.len() - i,
    {
        if present(ok, names[i].as_str()) {
            assert(text::texts(names@)[i as int] == names@[i as int]@);
            return Some(names[i].clone());
        }
        assert(text::texts(names@)[i as int] == names@[i as int]@);
        i += 1;
    }
    None
}

/// Some worktree has a stopped task.
pub open spec fn any_blocked(store: Store, slugs: Seq<Seq<char>>) -> bool {
    exists|i: int| 0 <= i < slugs.len() && store.has_blocked(#[trigger] slugs[i])
}

/// Some worktree is in a state.
pub open spec fn any_in(store: Store, slugs: Seq<Seq<char>>, s: WorktreeStatus) -> bool {
    exists|i: int| 0 <= i < slugs.len() && store.status_of(#[trigger] slugs[i]) == s
}

/// The left part of the status bar: the worst state of a worktree, the mode,
/// and how many worktrees and sessions there are.
pub open spec fn status_left(store: Store, vm_available: bool) -> Seq<char> {
    let slugs = store.worktrees.keys();
    theme::glyph(
        any_in(store, slugs, WorktreeStatus::Working),
        any_in(store, slugs, WorktreeStatus::NeedsYou),
        any_blocked(store, slugs),
        false,
    ) + " "@ + (if vm_available {
        "host"@
    } else {
        "host-only"@
    }) + " · "@ + text::dec(store.worktrees.entries().len()) + " wt · "@ + text::dec(
        store.sessions.entries().len(),
    ) + " ses"@
}

/// The right part of the status bar: the last error.
pub open spec fn status_right(store: Store) -> Seq<char> {
    if store.errors@.len() == 0 {
        "ready"@
    } else {
        "⚠ "@ + task::capped(store.errors@.last()@, 120)
    }
}

/// The two parts of the status bar.
pub fn render_status_bar(store: &Store, vm_available: bool) -> (r: (String, String))
    ensures
        r.0@ == status_left(*store, vm_available),
        r.1@ == status_right(*store),
{
    let n: usize = store.worktrees.len();
    let ghost slugs = store.worktrees.keys();
    let mut blocked = false;
    let mut needs_you = false;
    let mut working = false;
    let mut i: usize = 0;
    while i < n
        invariant
            i <= n == slugs.len(),
            n == store.worktrees.entries().len(),
            slugs == store.worktrees.keys(),
            blocked == exists|k: int| 0 <= k < i && store.has_blocked(#[trigger] slugs[k]),
            needs_you == exists|k: int|
                0 <= k < i && store.status_of(#[trigger] slugs[k]) == WorktreeStatus::NeedsYou,
            working == exists|k: int|
                0 <= k < i && store.status_of(#[trigger] slugs[k]) == WorktreeStatus::Working,
        decreases n - i,
    {
        let slug = store.worktrees.key_at(i);
        assert(slugs[i as int] == slug@);
        if store.is_blocked_slug(slug.as_str()) {
            blocked = true;
        }
        match store.worktree_status(slug.as_str()) {
            WorktreeStatus::NeedsYou => {
                needs_you = true;
            },
            WorktreeStatus::Working => {
                working = true;
            },
            _ => {},
        }
        i += 1;
    }
    let mut left = theme::status_glyph(working, needs_you, blocked, false).to_owned();
    left.append(" ");
    left.append(
        if vm_available {
            "host"
        } else {
            "host-only"
        },
    );
    left.append(" · ");
    left.append(text::decimal(n as u64).as_str());
    left.append(" wt · ");
    let count: usize = store.sessions.len();
    left.append(text::decimal(count as u64).as_str());
    left.append(" ses");
    let last: usize = store.errors.len();
    let right = if last == 0 {
        "ready".to_owned()
    } else {
        let mut r = "⚠ ".to_owned();
        r.append(theme::truncate(store.errors[last - 1].as_str(), 120).as_str());
        r
    };
    (left, right)
}

/// What the window shows: chat or terminal, and which tab beside it.
#[derive(Debug, Clone, Copy, PartialEq, Eq)]
pub struct Views {
    pub show_terminal: bool,
    pub right_tab: RightTab,
}

/// The icon of the activity rail that is lit.
#[derive(Debug, Clone, Copy, PartialEq, Eq, Structural)]
pub enum Activity {
    Fleet,
    Review,
    Terminal,
}

impl Views {
    /// The icon that is lit: one, and only one.
    pub fn activity(&self) -> (a: Activity)
        ensures
            a == (if self.show_terminal {
                Activity::Terminal
            } else if self.right_tab == RightTab::Diff {
                Activity::Review
            } else {
                Activity::Fleet
            }),
    {
        if self.show_terminal {
            Activity::Terminal
        } else if self.right_tab == RightTab::Diff {
            Activity::Review
        } else {
            Activity::Fleet
        }
    }

    /// Goes to the chat.
    pub fn to_fleet(&mut self)
        ensures
            *final(self) == (Views { show_terminal: false, ..*old(self) }),
    {
        self.show_terminal = false;
    }

    /// Goes to the chat with the changes beside it.
    pub fn to_review(&mut self)
        ensures
            *final(self) == (Views { show_terminal: false, right_tab: RightTab::Diff }),
    {
        self.show_terminal = false;
        self.right_tab = RightTab::Diff;
    }

    /// The label of a tab: a dot marks the one that is shown.
    pub fn tab_label(&self, tab: RightTab) -> (s: String)
        ensures
            s@ == (if self.right_tab == tab {
                tab.title() + " ●"@
            } else {
                tab.title()
            }),
    {
        let mut s = tab.name().to_owned();
        if self.right_tab == tab {
            s.append(" ●");
        }
        s
    }

    /// Whether all changes can be fetched from here.
    pub fn can_fetch(&self) -> (r: bool)
        ensures
            r == (self.right_tab == RightTab::Diff),
    {
        self.right_tab == RightTab::Diff
    }
}

/// A section of the context, as it is shown.
#[derive(Debug, Clone, PartialEq, Eq)]
pub struct SectionRow {
    pub label: String,
    pub color: u32,
    pub est_tokens: usize,
    /// The beginning of what the section holds; nothing for an empty one.
    pub detail: Option<String>,
}

/// What a [`SectionRow`] holds.
pub struct SectionRowModel {
    pub label: Seq<char>,
    pub color: u32,
    pub est_tokens: nat,
    pub detail: Option<Seq<char>>,
}

impl View for SectionRow {
    type V = SectionRowModel;

    open spec fn view(&self) -> SectionRowModel {
        SectionRowModel {
            label: self.label@,
            color: self.color,
            est_tokens: self.est_tokens as nat,
            detail: text::opt_text(self.detail),
        }
    }
}

/// The colour of a kind of section.
pub open spec fn kind_color(k: SectionKind, dark: bool) -> u32 {
    match k {
        SectionKind::System => HEAD_COLOR,
        SectionKind::User => ACCENT_COLOR,
        SectionKind::Assistant => OK_COLOR,
        SectionKind::ToolCall => WARN_COLOR,
        SectionKind::Reasoning | SectionKind::Other => if dark {
            0x8b8b93ffu32
        } else {
            0x5f6368ffu32
        },
    }
}

/// A section of the context, as it is shown.
pub open spec fn section_row(s: SectionModel, dark: bool) -> SectionRowModel {
    SectionRowModel {
        label: s.label,
        color: kind_color(s.kind, dark),
        est_tokens: s.est_tokens,
        detail: if s.detail.len() == 0 {
            None
        } else {
            Some(task::capped(s.detail, 260))
        },
    }
}

/// The sections of a context, as they are shown.
pub fn context_view(sections: &Vec<ContextSection>, dark: bool) -> (rows: Vec<SectionRow>)
    ensures
        rows@.map_values(|r: SectionRow| r@) == context::models(sections@).map_values(
            |s: SectionModel| section_row(s, dark),
        ),
{
    let ghost want = context::models(sections@).map_values(|s: SectionModel| section_row(s, dark));
    let mut rows: Vec<SectionRow> = Vec::new();
    let mut i: usize = 0;
    assert(rows@.map_values(|r: SectionRow| r@) =~= want.take(0));
    while i < sections.len()
        invariant
            i <= sections@.len(),
            want == context::models(sections@).map_values(
                |s: SectionModel| section_row(s, dark),
            ),
            rows@.map_values(|r: SectionRow| r@) == want.take(i as int),
        decreases sections@.len() - i,
    {
        let s = &sections[i];
        let color: u32 = match s.kind {
            SectionKind::System => HEAD_COLOR,
            SectionKind::User => ACCENT_COLOR,
            SectionKind::Assistant => OK_COLOR,
            SectionKind::ToolCall => WARN_COLOR,
            SectionKind::Reasoning | SectionKind::Other => theme::muted_for(dark),
        };
        let detail = if s.detail.as_str().is_empty() {
            None
        } else {
            Some(theme::truncate(s.detail.as_str(), 260))
        };
        let row = SectionRow { label: s.label.clone(), color, est_tokens: s.est_tokens, detail };
        assert(want[i as int] == row@);
        let ghost was = rows@;
        rows.push(row);
        assert(rows@.map_values(|r: SectionRow| r@) =~= was.map_values(|r: SectionRow| r@).push(
            row@,
        ));
        assert(want.take(i + 1) =~= want.take(i as int).push(row@));
        i += 1;
    }
    assert(want.take(want.len() as int) =~= want);
    rows
}

/// The models to choose from are those of every provider, one provider after
/// the other, each under its provider.
pub proof fn models_of_every_provider(providers: Seq<ProviderInfo>, p: ProviderInfo, i: int)
    ensures
        all_models(providers) == providers.map_values(|p: ProviderInfo| models_of(p)).flatten(),
        models_of(p).len() == p.models@.len(),
        0 <= i < p.models@.len() ==> models_of(p)[i] == (p.provider_id@, p.models@[i].0@),
    decreases providers.len(),
{
    let f = |p: ProviderInfo| models_of(p);
    let all = providers.map_values(f);
    all.lemma_flatten_and_flatten_alt_are_equivalent();
    if providers.len() == 0 {
        assert(all.flatten_alt() =~= Seq::empty());
    } else {
        let rest = providers.drop_last();
        models_of_every_provider(rest, p, i);
        rest.map_values(f).lemma_flatten_and_flatten_alt_are_equivalent();
        assert(all.drop_last() =~= rest.map_values(f));
    }
}

/// An agent is marked as there only where it was looked for and found.
pub proof fn ticks_mark_what_is_there(ok: Map<Seq<char>, bool>, name: Seq<char>, dark: bool)
    ensures
        ok.dom().contains(name) && ok[name] ==> tick_of(ok, name, dark).0 == name + " ●"@
            && tick_of(ok, name, dark).1 == OK_COLOR,
        !(ok.dom().contains(name) && ok[name]) ==> tick_of(ok, name, dark).0 == name + " ○"@,
{
}

/// The status line shows the last error, cut where it is long, and that all is
/// ready where there is none.
pub proof fn status_shows_the_last_error(store: Store)
    ensures
        store.errors@.len() == 0 ==> status_right(store) == "ready"@,
        store.errors@.len() > 0 && store.errors@.last()@.len() <= 120 ==> status_right(store)
            == "⚠ "@ + store.errors@.last()@,
{
}

/// A row of the context panel is its section's, with the detail cut, or none
/// where there is nothing to show.
pub proof fn section_rows_show_the_section(s: SectionModel, dark: bool)
    ensures
        section_row(s, dark).label == s.label,
        section_row(s, dark).est_tokens == s.est_tokens,
        s.detail.len() == 0 <==> section_row(s, dark).detail is None,
        0 < s.detail.len() <= 260 ==> section_row(s, dark).detail == Some(s.detail),
        section_row(s, dark).detail matches Some(d) ==> d.len() <= 261 && d.take(
            if s.detail.len() <= 260 {
                s.detail.len() as int
            } else {
                260
            },
        ) == s.detail.take(
            if s.detail.len() <= 260 {
                s.detail.len() as int
            } else {
                260
            },
        ),
{
    reveal_strlit("…");
    if s.detail.len() > 260 {
        assert((s.detail.take(260) + "…"@).take(260) =~= s.detail.take(260));
    }
}

/// The status line counts the worktrees and the sessions and begins with what
/// matters most among them: a blocked worktree, else one that needs you, else
/// one that works.
pub proof fn status_counts_and_marks(store: Store, vm_available: bool, i: int)
    ensures
        status_left(store, vm_available).len() > 0,
        0 <= i < store.worktrees.keys().len() && store.has_blocked(store.worktrees.keys()[i])
            ==> status_left(store, vm_available)[0] == '■',
        0 <= i < store.worktrees.keys().len() && !any_blocked(store, store.worktrees.keys())
            && store.status_of(store.worktrees.keys()[i]) == WorktreeStatus::NeedsYou
            ==> status_left(store, vm_available)[0] == '?',
        store.worktrees.keys().len() == 0 ==> status_left(store, vm_available)[0] == '○',
        (text::dec(store.sessions.entries().len()) + " ses"@).len() <= status_left(
            store,
            vm_available,
        ).len() && status_left(store, vm_available).skip(
            status_left(store, vm_available).len() - (text::dec(store.sessions.entries().len())
                + " ses"@).len(),
        ) == text::dec(store.sessions.entries().len()) + " ses"@,
{
    reveal_strlit("■");
    reveal_strlit("?");
    reveal_strlit("●");
    reveal_strlit("✓");
    reveal_strlit("○");
    let s = status_left(store, vm_available);
    let tail = text::dec(store.sessions.entries().len()) + " ses"@;
    assert(s.skip(s.len() - tail.len()) =~= tail);
}

} // verus!
