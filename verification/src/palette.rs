//! The command palette: every main action under a name to search for.
use crate::diff_view;
use crate::order;
use crate::outside;
use crate::runtime::Command;
use crate::session::WorktreeStatus;
use crate::sidebar;
use crate::sorted_map::StrMap;
use crate::store::Store;
use crate::text;
use crate::transcript::TaskId;
use vstd::prelude::*;
use vstd::string::*;

verus! {

/// A tab of the panel on the right.
#[derive(Debug, Clone, Copy, PartialEq, Eq, Structural)]
pub enum RightTab {
    Context,
    Diff,
    File,
    Costs,
}

impl RightTab {
    /// The name of the tab.
    pub open spec fn title(self) -> Seq<char> {
        match self {
            RightTab::Context => "context"@,
            RightTab::Diff => "diff"@,
            RightTab::File => "file"@,
            RightTab::Costs => "costs"@,
        }
    }

    /// The name of the tab.
    pub fn name(&self) -> (s: &'static str)
        ensures
            s@ == self.title(),
    {
        match self {
            RightTab::Context => "context",
            RightTab::Diff => "diff",
            RightTab::File => "file",
            RightTab::Costs => "costs",
        }
    }
}

/// What an entry does.
#[derive(Debug, Clone, PartialEq, Eq)]
pub enum PaletteAction {
    SelectWorktree(String),
    SelectSession(String),
    FetchAllDiffs,
    RetryTask(String),
    MergeWorktree(String),
    OpenWtDialog,
    ToggleTerminal,
    SetRightTab(RightTab),
}

/// What a [`PaletteAction`] holds.
pub enum ActionModel {
    SelectWorktree(Seq<char>),
    SelectSession(Seq<char>),
    FetchAllDiffs,
    RetryTask(Seq<char>),
    MergeWorktree(Seq<char>),
    OpenWtDialog,
    ToggleTerminal,
    SetRightTab(RightTab),
}

impl View for PaletteAction {
    type V = ActionModel;

    open spec fn view(&self) -> ActionModel {
        match self {
            PaletteAction::SelectWorktree(s) => ActionModel::SelectWorktree(s@),
            PaletteAction::SelectSession(s) => ActionModel::SelectSession(s@),
            PaletteAction::FetchAllDiffs => ActionModel::FetchAllDiffs,
            PaletteAction::RetryTask(s) => ActionModel::RetryTask(s@),
            PaletteAction::MergeWorktree(s) => ActionModel::MergeWorktree(s@),
            PaletteAction::OpenWtDialog => ActionModel::OpenWtDialog,
            PaletteAction::ToggleTerminal => ActionModel::ToggleTerminal,
            PaletteAction::SetRightTab(t) => ActionModel::SetRightTab(*t),
        }
    }
}

impl PaletteAction {
    /// A copy of the action.
    pub fn copy(&self) -> (a: PaletteAction)
        ensures
            a@ == self@,
    {
        match self {
            PaletteAction::SelectWorktree(s) => PaletteAction::SelectWorktree(s.clone()),
            PaletteAction::SelectSession(s) => PaletteAction::SelectSession(s.clone()),
            PaletteAction::FetchAllDiffs => PaletteAction::FetchAllDiffs,
            PaletteAction::RetryTask(s) => PaletteAction::RetryTask(s.clone()),
            PaletteAction::MergeWorktree(s) => PaletteAction::MergeWorktree(s.clone()),
            PaletteAction::OpenWtDialog => PaletteAction::OpenWtDialog,
            PaletteAction::ToggleTerminal => PaletteAction::ToggleTerminal,
            PaletteAction::SetRightTab(t) => PaletteAction::SetRightTab(*t),
        }
    }
}

/// An entry of the palette.
#[derive(Debug, Clone, PartialEq, Eq)]
pub struct PaletteItem {
    pub id: String,
    /// What is searched and shown.
    pub label: String,
    /// The group of the entry.
    pub hint: String,
    pub action: PaletteAction,
}

/// What a [`PaletteItem`] holds.
pub struct ItemModel {
    pub id: Seq<char>,
    pub label: Seq<char>,
    pub hint: Seq<char>,
    pub action: ActionModel,
}

impl View for PaletteItem {
    type V = ItemModel;

    open spec fn view(&self) -> ItemModel {
        ItemModel {
            id: self.id@,
            label: self.label@,
            hint: self.hint@,
            action: self.action@,
        }
    }
}

/// What some entries hold.
pub open spec fn items_of(v: Seq<PaletteItem>) -> Seq<ItemModel> {
    v.map_values(|i: PaletteItem| i@)
}

broadcast proof fn items_push(v: Seq<PaletteItem>, i: PaletteItem)
    ensures
        #[trigger] items_of(v.push(i)) == items_of(v).push(i@),
{
    assert(items_of(v.push(i)) =~= items_of(v).push(i@));
}

/// The place of a worktree by the attention it wants: stopped, waiting,
/// working, done, not begun.
pub open spec fn attention(blocked: bool, status: WorktreeStatus) -> u64 {
    if blocked {
        0
    } else {
        match status {
            WorktreeStatus::NeedsYou => 1,
            WorktreeStatus::Working => 2,
            WorktreeStatus::Done => 3,
            WorktreeStatus::Creating => 4,
        }
    }
}

/// The place of a worktree by the attention it wants.
pub fn fleet_rank(blocked: bool, status: WorktreeStatus) -> (r: u64)
    ensures
        r == attention(blocked, status),
{
    if blocked {
        return 0;
    }
    match status {
        WorktreeStatus::NeedsYou => 1,
        WorktreeStatus::Working => 2,
        WorktreeStatus::Done => 3,
        WorktreeStatus::Creating => 4,
    }
}

/// The places of some worktrees by the attention they want.
pub open spec fn attention_ranks(store: Store, slugs: Seq<Seq<char>>) -> Seq<order::Key> {
    slugs.map_values(
        |s: Seq<char>| (false, attention(store.has_blocked(s), store.status_of(s))),
    )
}

/// The worktrees, those that want attention first, by name among equals.
pub open spec fn by_attention(store: Store) -> Seq<Seq<char>> {
    order::sorted(store.worktrees.keys(), attention_ranks(store, store.worktrees.keys()))
}

/// The worktrees, those that want attention first, by name among equals.
pub fn slugs_by_attention(store: &Store) -> (out: Vec<String>)
    ensures
        text::texts(out@) == by_attention(*store),
{
    let n: usize = store.worktrees.len();
    let ghost keys = store.worktrees.keys();
    let mut ranks: Vec<order::Key> = Vec::new();
    let mut i: usize = 0;
    assert(ranks@ =~= attention_ranks(*store, keys.take(0)));
    while i < n
        invariant
            i <= n == keys.len(),
            n == store.worktrees.entries().len(),
            keys == store.worktrees.keys(),
            ranks@ == attention_ranks(*store, keys.take(i as int)),
        decreases n - i,
    {
        let slug = store.worktrees.key_at(i);
        let rank: u64 = fleet_rank(
            store.is_blocked_slug(slug.as_str()),
            store.worktree_status(slug.as_str()),
        );
        assert(keys[i as int] == slug@);
        ranks.push((false, rank));
        assert(ranks@ =~= attention_ranks(*store, keys.take(i + 1)));
        i += 1;
    }
    assert(keys.take(n as int) =~= keys);
    let places = order::stable_order(&ranks);
    let ghost p = order::indices(places@);
    let mut out: Vec<String> = Vec::new();
    let mut k: usize = 0;
    while k < places.len()
        invariant
            k <= places@.len(),
            places@.len() == n,
            n == store.worktrees.entries().len(),
            keys == store.worktrees.keys(),
            p == order::indices(places@),
            forall|j: int| 0 <= j < places@.len() ==> (#[trigger] places@[j]) < n,
            out@.len() == k,
            forall|j: int| 0 <= j < k ==> (#[trigger] out@[j])@ == keys[p[j]],
        decreases places@.len() - k,
    {
        let at: usize = places[k];
        out.push(store.worktrees.key_at(at).clone());
        k += 1;
    }
    proof {
        assert(text::texts(out@) =~= Seq::new(p.len(), |i: int| keys[p[i]]));
        assert(order::sorted_by(keys, attention_ranks(*store, keys), text::texts(out@)));
        order::sorted_is_unique(keys, attention_ranks(*store, keys), text::texts(out@));
    }
    out
}

/// An entry.
pub open spec fn item(id: Seq<char>, label: Seq<char>, hint: Seq<char>, action: ActionModel) -> ItemModel {
    ItemModel { id, label, hint, action }
}

/// The entry that goes to a worktree.
pub open spec fn go_item(slug: Seq<char>) -> ItemModel {
    item("go-"@ + slug, "Go to ⑂ "@ + slug, "go"@, ActionModel::SelectWorktree(slug))
}

/// The entry that goes to a session.
pub open spec fn session_item(store: Store, sid: Seq<char>) -> ItemModel {
    item(
        "go-"@ + sid,
        "Go to "@ + (if store.sessions@.dom().contains(sid) {
            store.sessions@[sid].title@
        } else {
            "(gone)"@
        }),
        "go"@,
        ActionModel::SelectSession(sid),
    )
}

/// The entry that starts a stopped task again.
pub open spec fn retry_item(slug: Seq<char>) -> ItemModel {
    item("retry-"@ + slug, "Retry blocked ⑂ "@ + slug, "fleet"@, ActionModel::RetryTask(slug))
}

/// The entries that start the stopped tasks of some worktrees again.
pub open spec fn retry_items(store: Store, slugs: Seq<Seq<char>>) -> Seq<ItemModel>
    decreases slugs.len(),
{
    if slugs.len() == 0 {
        Seq::empty()
    } else if store.has_blocked(slugs.last()) {
        retry_items(store, slugs.drop_last()).push(retry_item(slugs.last()))
    } else {
        retry_items(store, slugs.drop_last())
    }
}

/// Some session of the worktree has changes.
pub open spec fn has_diffs(store: Store, slug: Seq<char>) -> bool {
    exists|sid: Seq<char>| #[trigger]
        store.diffs@.dom().contains(sid) && store.scope(sid) == slug
}

/// The entry that merges a worktree.
pub open spec fn merge_item(slug: Seq<char>) -> ItemModel {
    item("merge-"@ + slug, "Merge winner ⑂ "@ + slug, "review"@, ActionModel::MergeWorktree(slug))
}

/// The entries that merge those of some worktrees that have changes.
pub open spec fn merge_items(store: Store, slugs: Seq<Seq<char>>) -> Seq<ItemModel>
    decreases slugs.len(),
{
    if slugs.len() == 0 {
        Seq::empty()
    } else if has_diffs(store, slugs.last()) {
        merge_items(store, slugs.drop_last()).push(merge_item(slugs.last()))
    } else {
        merge_items(store, slugs.drop_last())
    }
}

/// The entry that shows a tab.
pub open spec fn tab_item(tab: RightTab) -> ItemModel {
    item(
        "view-"@ + tab.title(),
        "Show "@ + tab.title() + " panel"@,
        "view"@,
        ActionModel::SetRightTab(tab),
    )
}

/// The entries that are always there.
pub open spec fn fixed_items() -> Seq<ItemModel> {
    seq![
        item("fetch-diffs"@, "Fetch all diffs"@, "review"@, ActionModel::FetchAllDiffs),
        item("new-wt"@, "New worktree…"@, "fleet"@, ActionModel::OpenWtDialog),
        item("toggle-term"@, "Toggle terminal"@, "view"@, ActionModel::ToggleTerminal),
        tab_item(RightTab::Context),
        tab_item(RightTab::Diff),
        tab_item(RightTab::File),
    ]
}

/// All entries: worktrees and sessions to go to, stopped tasks to start
/// again, worktrees to merge, and those that are always there.
pub open spec fn all_items(store: Store) -> Seq<ItemModel> {
    by_attention(store).map_values(|s: Seq<char>| go_item(s)) + sidebar::listed(
        store,
        Seq::empty(),
    ).map_values(|s: Seq<char>| session_item(store, s)) + retry_items(store, by_attention(store))
        + merge_items(store, by_attention(store)) + fixed_items()
}

fn named(id: &str, label: &str, name: &str, hint: &str, action: PaletteAction) -> (i: PaletteItem)
    ensures
        i@ == item(id@ + name@, label@ + name@, hint@, action@),
{
    let mut key = id.to_owned();
    key.append(name);
    let mut text = label.to_owned();
    text.append(name);
    PaletteItem { id: key, label: text, hint: hint.to_owned(), action }
}

fn plain(id: &str, label: &str, hint: &str, action: PaletteAction) -> (i: PaletteItem)
    ensures
        i@ == item(id@, label@, hint@, action@),
{
    PaletteItem { id: id.to_owned(), label: label.to_owned(), hint: hint.to_owned(), action }
}

fn tab_entry(tab: RightTab) -> (i: PaletteItem)
    ensures
        i@ == tab_item(tab),
{
    let mut id = "view-".to_owned();
    id.append(tab.name());
    let mut label = "Show ".to_owned();
    label.append(tab.name());
    label.append(" panel");
    PaletteItem { id, label, hint: "view".to_owned(), action: PaletteAction::SetRightTab(tab) }
}

fn push_go(items: &mut Vec<PaletteItem>, slugs: &Vec<String>)
    ensures
        items_of(final(items)@) == items_of(old(items)@) + text::texts(slugs@).map_values(
            |s: Seq<char>| go_item(s),
        ),
{
    broadcast use items_push;

    let ghost before = items_of(items@);
    let ghost want = text::texts(slugs@).map_values(|s: Seq<char>| go_item(s));
    let mut i: usize = 0;
    assert(before + want.take(0) =~= before);
    while i < slugs.len()
        invariant
            i <= slugs@.len(),
            want == text::texts(slugs@).map_values(|s: Seq<char>| go_item(s)),
            items_of(items@) == before + want.take(i as int),
        decreases slugs@.len() - i,
    {
        let slug = slugs[i].as_str();
        let it = named(
            "go-",
            "Go to ⑂ ",
            slug,
            "go",
            PaletteAction::SelectWorktree(slug.to_owned()),
        );
        assert(want[i as int] == it@);
        assert(want.take(i + 1) =~= want.take(i as int).push(it@));
        assert(before + want.take(i as int).push(it@) =~= (before + want.take(i as int)).push(it@));
        items.push(it);
        i += 1;
    }
    assert(want.take(want.len() as int) =~= want);
}

fn push_root_sessions(items: &mut Vec<PaletteItem>, store: &Store)
    ensures
        items_of(final(items)@) == items_of(old(items)@) + sidebar::listed(
            *store,
            Seq::empty(),
        ).map_values(|s: Seq<char>| session_item(*store, s)),
{
    broadcast use items_push;

    proof {
        reveal_strlit("");
        assert(""@ =~= Seq::<char>::empty());
    }
    let sids = store.sessions_in_scope("");
    proof {
        let mine = store.in_scope(store.sessions.keys(), Seq::empty());
        order::sorted_is_unique(mine, store.recencies(mine), text::texts(sids@));
    }
    let ghost before = items_of(items@);
    let ghost want = text::texts(sids@).map_values(|s: Seq<char>| session_item(*store, s));
    let mut i: usize = 0;
    assert(before + want.take(0) =~= before);
    while i < sids.len()
        invariant
            i <= sids@.len(),
            want == text::texts(sids@).map_values(|s: Seq<char>| session_item(*store, s)),
            items_of(items@) == before + want.take(i as int),
        decreases sids@.len() - i,
    {
        let sid = sids[i].as_str();
        let mut id = "go-".to_owned();
        id.append(sid);
        let mut label = "Go to ".to_owned();
        match store.sessions.get(sid) {
            Some(s) => label.append(s.title.as_str()),
            None => label.append("(gone)"),
        }
        let it = PaletteItem {
            id,
            label,
            hint: "go".to_owned(),
            action: PaletteAction::SelectSession(sid.to_owned()),
        };
        assert(want[i as int] == it@);
        assert(want.take(i + 1) =~= want.take(i as int).push(it@));
        assert(before + want.take(i as int).push(it@) =~= (before + want.take(i as int)).push(it@));
        items.push(it);
        i += 1;
    }
    assert(want.take(want.len() as int) =~= want);
}

fn push_retries(items: &mut Vec<PaletteItem>, store: &Store, slugs: &Vec<String>)
    ensures
        items_of(final(items)@) == items_of(old(items)@) + retry_items(
            *store,
            text::texts(slugs@),
        ),
{
    broadcast use items_push;

    let ghost before = items_of(items@);
    let ghost all = text::texts(slugs@);
    let mut i: usize = 0;
    assert(all.take(0) =~= Seq::empty());
    assert(before + retry_items(*store, all.take(0)) =~= before);
    while i < slugs.len()
        invariant
            i <= slugs@.len(),
            all == text::texts(slugs@),
            items_of(items@) == before + retry_items(*store, all.take(i as int)),
        decreases slugs@.len() - i,
    {
        assert(all.take(i + 1).drop_last() =~= all.take(i as int));
        let slug = slugs[i].as_str();
        assert(all[i as int] == slug@);
        if store.is_blocked_slug(slug) {
            let it = named(
                "retry-",
                "Retry blocked ⑂ ",
                slug,
                "fleet",
                PaletteAction::RetryTask(slug.to_owned()),
            );
            assert(before + retry_items(*store, all.take(i + 1)) =~= (before + retry_items(
                *store,
                all.take(i as int),
            )).push(it@));
            items.push(it);
        }
        i += 1;
    }
    assert(all.take(all.len() as int) =~= all);
}

fn push_merges(items: &mut Vec<PaletteItem>, store: &Store, slugs: &Vec<String>)
    ensures
        items_of(final(items)@) == items_of(old(items)@) + merge_items(
            *store,
            text::texts(slugs@),
        ),
{
    broadcast use items_push;

    let scopes: StrMap<()> = diff_view::scopes_with_diffs(store);
    let ghost before = items_of(items@);
    let ghost all = text::texts(slugs@);
    let mut i: usize = 0;
    assert(all.take(0) =~= Seq::empty());
    assert(before + merge_items(*store, all.take(0)) =~= before);
    while i < slugs.len()
        invariant
            i <= slugs@.len(),
            all == text::texts(slugs@),
            diff_view::diff_scopes(*store, scopes.keys()),
            items_of(items@) == before + merge_items(*store, all.take(i as int)),
        decreases slugs@.len() - i,
    {
        assert(all.take(i + 1).drop_last() =~= all.take(i as int));
        let slug = slugs[i].as_str();
        assert(all[i as int] == slug@);
        assert(scopes@.dom().contains(slug@) == scopes.keys().contains(slug@));
        if scopes.contains_key(slug) {
            assert(has_diffs(*store, slug@));
            let it = named(
                "merge-",
                "Merge winner ⑂ ",
                slug,
                "review",
                PaletteAction::MergeWorktree(slug.to_owned()),
            );
            assert(before + merge_items(*store, all.take(i + 1)) =~= (before + merge_items(
                *store,
                all.take(i as int),
            )).push(it@));
            items.push(it);
        } else {
            assert(!has_diffs(*store, slug@));
        }
        i += 1;
    }
    assert(all.take(all.len() as int) =~= all);
}

/// All entries of the palette.
pub fn palette_items(store: &Store) -> (items: Vec<PaletteItem>)
    ensures
        items_of(items@) == all_items(*store),
{
    broadcast use items_push;

    let slugs = slugs_by_attention(store);
    let mut items: Vec<PaletteItem> = Vec::new();
    assert(items_of(items@) =~= Seq::empty());
    push_go(&mut items, &slugs);
    push_root_sessions(&mut items, store);
    push_retries(&mut items, store, &slugs);
    push_merges(&mut items, store, &slugs);
    let ghost before = items_of(items@);
    items.push(plain("fetch-diffs", "Fetch all diffs", "review", PaletteAction::FetchAllDiffs));
    items.push(plain("new-wt", "New worktree…", "fleet", PaletteAction::OpenWtDialog));
    items.push(plain("toggle-term", "Toggle terminal", "view", PaletteAction::ToggleTerminal));
    items.push(tab_entry(RightTab::Context));
    items.push(tab_entry(RightTab::Diff));
    items.push(tab_entry(RightTab::File));
    assert(items_of(items@) =~= before + fixed_items());
    assert(items_of(items@) =~= all_items(*store));
    items
}

/// A label is found by a search, both in lower case: it holds what is
/// searched for. An empty search finds everything.
pub fn label_matches(label: &str, query: &str) -> (r: bool)
    ensures
        r == (query@.len() == 0 || text::occurs(label@, query@)),
{
    query.is_empty() || text::contains(label, query)
}

/// An entry is found by a search in lower case.
pub open spec fn found(i: ItemModel, q: Seq<char>) -> bool {
    q.len() == 0 || text::occurs(outside::lowercase(i.label), q)
}

/// The entries that a search in lower case finds.
pub open spec fn matching(items: Seq<ItemModel>, q: Seq<char>) -> Seq<ItemModel>
    decreases items.len(),
{
    if items.len() == 0 {
        Seq::empty()
    } else if found(items.last(), q) {
        matching(items.drop_last(), q).push(items.last())
    } else {
        matching(items.drop_last(), q)
    }
}

/// The first `n` of a list, or all of it.
pub open spec fn first_of<T>(s: Seq<T>, n: int) -> Seq<T> {
    if s.len() <= n {
        s
    } else {
        s.take(n)
    }
}

/// What some found entries hold.
pub open spec fn refs_of(v: Seq<&PaletteItem>) -> Seq<ItemModel> {
    v.map_values(|i: &PaletteItem| i@)
}

/// What is searched for: a query without the white space around it, in lower
/// case.
pub open spec fn needle(query: Seq<char>) -> Seq<char> {
    outside::lowercase(text::trim(query, text::blank()))
}

/// The first entries that a query finds, whatever the case of the letters.
pub fn palette_match<'a>(query: &str, items: &'a [PaletteItem], limit: usize) -> (out: Vec<
    &'a PaletteItem,
>)
    ensures
        refs_of(out@) == first_of(matching(items_of(items@), needle(query@)), limit as int),
{
    let q = outside::lower_text(text::trimmed(query).as_str());
    let ghost all = items_of(items@);
    let mut out: Vec<&'a PaletteItem> = Vec::new();
    let mut i: usize = 0;
    assert(all.take(0) =~= Seq::empty());
    assert(refs_of(out@) =~= Seq::empty());
    while i < items.len()
        invariant
            i <= items@.len(),
            all == items_of(items@),
            q@ == needle(query@),
            refs_of(out@) == first_of(matching(all.take(i as int), q@), limit as int),
            out@.len() <= limit,
        decreases items@.len() - i,
    {
        assert(all.take(i + 1).drop_last() =~= all.take(i as int));
        let it = &items[i];
        assert(all[i as int] == it@);
        let ghost got = matching(all.take(i as int), q@);
        if label_matches(outside::lower_text(it.label.as_str()).as_str(), q.as_str()) {
            if out.len() < limit {
                let ghost was = out@;
                out.push(it);
                assert(refs_of(out@) =~= refs_of(was).push(it@));
                assert(got == refs_of(was));
            } else {
                assert(refs_of(out@).len() == out@.len());
                assert(first_of(got.push(it@), limit as int) =~= first_of(got, limit as int));
            }
        }
        i += 1;
    }
    assert(all.take(all.len() as int) =~= all);
    out
}

/// How many entries the palette shows.
pub const PALETTE_ROWS: usize = 12;

/// The entries that the palette shows for a query; where there are none it
/// says so.
pub fn render_palette(store: &Store, query: &str) -> (rows: Vec<PaletteItem>)
    ensures
        items_of(rows@) == first_of(matching(all_items(*store), needle(query@)), 12),
{
    let items = palette_items(store);
    let shown = palette_match(query, items.as_slice(), PALETTE_ROWS);
    let ghost want = refs_of(shown@);
    let mut rows: Vec<PaletteItem> = Vec::new();
    let mut i: usize = 0;
    assert(items_of(rows@) =~= want.take(0));
    while i < shown.len()
        invariant
            i <= shown@.len(),
            want == refs_of(shown@),
            items_of(rows@) == want.take(i as int),
        decreases shown@.len() - i,
    {
        let it = shown[i];
        let ghost was = rows@;
        let row = PaletteItem {
            id: it.id.clone(),
            label: it.label.clone(),
            hint: it.hint.clone(),
            action: it.action.copy(),
        };
        assert(want[i as int] == row@);
        rows.push(row);
        assert(items_of(rows@) =~= items_of(was).push(row@));
        assert(want.take(i + 1) =~= want.take(i as int).push(row@));
        i += 1;
    }
    assert(want.take(want.len() as int) =~= want);
    rows
}

/// What the palette changes in the window.
#[derive(Debug, Clone, Copy, PartialEq, Eq)]
pub struct PaletteDesk {
    pub show_palette: bool,
    pub show_wt_dialog: bool,
    pub right_tab: RightTab,
}

/// What an action asks for beyond that.
#[derive(Debug, Clone, PartialEq, Eq)]
pub enum PaletteEffect {
    Send(Command),
    ToggleTerminal,
    Nothing,
}

/// What an action does to the window.
pub open spec fn desk_after(d: PaletteDesk, a: ActionModel) -> PaletteDesk {
    PaletteDesk {
        show_palette: false,
        show_wt_dialog: d.show_wt_dialog || a is OpenWtDialog,
        right_tab: match a {
            ActionModel::SetRightTab(t) => t,
            _ => d.right_tab,
        },
    }
}

/// What an action asks for.
pub open spec fn asks_for(a: ActionModel, e: PaletteEffect) -> bool {
    match a {
        ActionModel::SelectWorktree(s) => e matches PaletteEffect::Send(
            Command::SelectWorktree { slug },
        ) && slug@ == s,
        ActionModel::SelectSession(s) => e matches PaletteEffect::Send(
            Command::SelectSession { id },
        ) && id@ == s,
        ActionModel::FetchAllDiffs => e matches PaletteEffect::Send(Command::FetchAllDiffs),
        ActionModel::RetryTask(s) => e matches PaletteEffect::Send(Command::RetryTask { slug })
            && slug@ == s,
        ActionModel::MergeWorktree(s) => e matches PaletteEffect::Send(
            Command::MergeWorktree { slug },
        ) && slug@ == s,
        ActionModel::OpenWtDialog => e is Nothing,
        ActionModel::ToggleTerminal => e is ToggleTerminal,
        ActionModel::SetRightTab(_) => e is Nothing,
    }
}

impl PaletteDesk {
    /// Runs an action, and closes the palette.
    pub fn run_palette(&mut self, action: PaletteAction) -> (e: PaletteEffect)
        ensures
            *final(self) == desk_after(*old(self), action@),
            asks_for(action@, e),
    {
        self.show_palette = false;
        match action {
            PaletteAction::SelectWorktree(slug) => PaletteEffect::Send(
                Command::SelectWorktree { slug },
            ),
            PaletteAction::SelectSession(id) => PaletteEffect::Send(Command::SelectSession { id }),
            PaletteAction::FetchAllDiffs => PaletteEffect::Send(Command::FetchAllDiffs),
            PaletteAction::RetryTask(slug) => PaletteEffect::Send(Command::RetryTask { slug }),
            PaletteAction::MergeWorktree(slug) => PaletteEffect::Send(
                Command::MergeWorktree { slug },
            ),
            PaletteAction::OpenWtDialog => {
                self.show_wt_dialog = true;
                PaletteEffect::Nothing
            },
            PaletteAction::ToggleTerminal => PaletteEffect::ToggleTerminal,
            PaletteAction::SetRightTab(tab) => {
                self.right_tab = tab;
                PaletteEffect::Nothing
            },
        }
    }

    /// Runs the first entry that a query finds; nothing where there is none.
    pub fn run_palette_first(&mut self, store: &Store, query: &str) -> (e: Option<PaletteEffect>)
        ensures
            ({
                let hits = matching(all_items(*store), needle(query@));
                if hits.len() == 0 {
                    e is None && *final(self) == *old(self)
                } else {
                    e is Some && asks_for(hits[0].action, e->0) && *final(self) == desk_after(
                        *old(self),
                        hits[0].action,
                    )
                }
            }),
    {
        let mut rows = render_palette(store, query);
        assert(items_of(rows@).len() == rows@.len());
        if rows.len() == 0 {
            return None;
        }
        assert(items_of(rows@)[0] == rows@[0]@);
        let first = rows.remove(0);
        Some(self.run_palette(first.action))
    }
}

/// Every entry that is shown is one of the palette's, and is found by the
/// query.
pub proof fn matches_are_items(items: Seq<ItemModel>, q: Seq<char>, i: int)
    requires
        0 <= i < matching(items, q).len(),
    ensures
        items.contains(matching(items, q)[i]),
        found(matching(items, q)[i], q),
    decreases items.len(),
{
    let rest = items.drop_last();
    let got = matching(rest, q);
    if i < got.len() {
        matches_are_items(rest, q, i);
        let k = choose|k: int| 0 <= k < rest.len() && rest[k] == got[i];
        assert(items[k] == got[i]);
    } else {
        assert(items[items.len() - 1] == items.last());
    }
}

/// An empty search finds every entry.
pub proof fn empty_query_finds_all(items: Seq<ItemModel>)
    ensures
        matching(items, Seq::empty()) == items,
    decreases items.len(),
{
    if items.len() > 0 {
        empty_query_finds_all(items.drop_last());
        assert(items.drop_last().push(items.last()) =~= items);
    } else {
        assert(matching(items, Seq::empty()) =~= items);
    }
}

/// The commands offered for worktrees: trying again for each that is blocked
/// and merging for each that has changes, in the order given.
pub proof fn offers_fit_the_worktrees(store: Store, slugs: Seq<Seq<char>>)
    ensures
        retry_items(store, slugs) == slugs.filter(
            |s: Seq<char>|
                exists|t: TaskId| #[trigger]
                    store.blocked@.dom().contains(t) && store.blocked@[t]@ == s,
        ).map_values(|s: Seq<char>| retry_item(s)),
        merge_items(store, slugs) == slugs.filter(
            |s: Seq<char>|
                exists|sid: Seq<char>| #[trigger]
                    store.diffs@.dom().contains(sid) && store.scope(sid) == s,
        ).map_values(|s: Seq<char>| merge_item(s)),
    decreases slugs.len(),
{
    reveal(Seq::filter);
    let p = |s: Seq<char>|
        exists|t: TaskId| #[trigger]
            store.blocked@.dom().contains(t) && store.blocked@[t]@ == s;
    let f = |s: Seq<char>| retry_item(s);
    let q = |s: Seq<char>|
        exists|sid: Seq<char>| #[trigger]
            store.diffs@.dom().contains(sid) && store.scope(sid) == s;
    let g = |s: Seq<char>| merge_item(s);
    if slugs.len() > 0 {
        let rest = slugs.drop_last();
        offers_fit_the_worktrees(store, rest);
        let a = rest.filter(p);
        assert(a.push(slugs.last()).map_values(f) =~= a.map_values(f).push(f(slugs.last())));
        let b = rest.filter(q);
        assert(b.push(slugs.last()).map_values(g) =~= b.map_values(g).push(g(slugs.last())));
        assert(p(slugs.last()) == store.has_blocked(slugs.last()));
        assert(q(slugs.last()) == has_diffs(store, slugs.last()));
    }
    assert(retry_items(store, slugs) =~= slugs.filter(p).map_values(f));
    assert(merge_items(store, slugs) =~= slugs.filter(q).map_values(g));
}

/// What is offered does what it says: each command acts on the very worktree
/// or session it names.
pub proof fn offers_act_on_what_they_name(store: Store, name: Seq<char>, tab: RightTab)
    ensures
        go_item(name).action == ActionModel::SelectWorktree(name),
        go_item(name).label == "Go to ⑂ "@ + name,
        session_item(store, name).action == ActionModel::SelectSession(name),
        store.sessions@.dom().contains(name) ==> session_item(store, name).label == "Go to "@
            + store.sessions@[name].title@,
        retry_item(name).action == ActionModel::RetryTask(name),
        retry_item(name).label == "Retry blocked ⑂ "@ + name,
        merge_item(name).action == ActionModel::MergeWorktree(name),
        merge_item(name).label == "Merge winner ⑂ "@ + name,
        tab_item(tab).action == ActionModel::SetRightTab(tab),
{
}

/// A search through the offers gives those whose label holds the words, in
/// order.
pub proof fn search_keeps_what_fits(items: Seq<ItemModel>, q: Seq<char>)
    ensures
        matching(items, q) == items.filter(
            |i: ItemModel| q.len() == 0 || text::occurs(outside::lowercase(i.label), q),
        ),
    decreases items.len(),
{
    reveal(Seq::filter);
    if items.len() > 0 {
        search_keeps_what_fits(items.drop_last(), q);
    }
    assert(matching(items, q) =~= items.filter(
        |i: ItemModel| q.len() == 0 || text::occurs(outside::lowercase(i.label), q),
    ));
}

/// Worktrees come by how much they need somebody: blocked ones first, then
/// those that need you, that work, that are done, and that are being made.
pub proof fn attention_orders_the_worktrees(
    store: Store,
    slugs: Seq<Seq<char>>,
    out: Seq<Seq<char>>,
    i: int,
    j: int,
)
    requires
        order::sorted_by(slugs, attention_ranks(store, slugs), out),
        0 <= i < j < out.len(),
    ensures
        out.len() == slugs.len(),
        store.has_blocked(out[j]) ==> store.has_blocked(out[i]),
        !store.has_blocked(out[i]) ==> {
            let a = store.status_of(out[i]);
            let b = store.status_of(out[j]);
            &&& b == WorktreeStatus::NeedsYou ==> a == WorktreeStatus::NeedsYou
            &&& b == WorktreeStatus::Working ==> a == WorktreeStatus::NeedsYou || a
                == WorktreeStatus::Working
            &&& b == WorktreeStatus::Done ==> a != WorktreeStatus::Creating
        },
{
    let keys = attention_ranks(store, slugs);
    order::sorting_keeps_and_orders(slugs, keys, out);
    let p = choose|p: Seq<int>|
        {
            &&& p.len() == slugs.len()
            &&& #[trigger] p.no_duplicates()
            &&& forall|i: int|
                0 <= i < p.len() ==> 0 <= #[trigger] p[i] < slugs.len() && out[i] == slugs[p[i]]
            &&& forall|i: int, j: int|
                0 <= i < j < p.len() ==> {
                    let a = keys[#[trigger] p[i]];
                    let b = keys[#[trigger] p[j]];
                    &&& a.0 ==> b.0
                    &&& a.0 == b.0 ==> a.1 <= b.1
                    &&& a == b ==> p[i] < p[j]
                }
        };
    let a = keys[p[i]];
    let b = keys[p[j]];
    assert(0 <= p[i] < slugs.len() && 0 <= p[j] < slugs.len());
}

/// A list cut to its first items keeps their order.
pub proof fn the_first_ones_stay<T>(s: Seq<T>, n: int)
    requires
        0 <= n,
    ensures
        first_of(s, n).is_prefix_of(s),
        first_of(s, n).len() == if s.len() <= n {
            s.len() as int
        } else {
            n
        },
{
}

/// Choosing an offer closes the palette; only opening the dialog opens it, and
/// only showing a panel changes the panel.
pub proof fn choosing_closes_the_palette(d: PaletteDesk, a: ActionModel)
    ensures
        !desk_after(d, a).show_palette,
        a is OpenWtDialog ==> desk_after(d, a).show_wt_dialog,
        !(a is OpenWtDialog) ==> desk_after(d, a).show_wt_dialog == d.show_wt_dialog,
        a matches ActionModel::SetRightTab(t) ==> desk_after(d, a).right_tab == t,
        !(a is SetRightTab) ==> desk_after(d, a).right_tab == d.right_tab,
{
}

/// All that is offered: a way to each worktree, to each session outside of
/// worktrees, then what can be tried again, what can be merged, and what is
/// always there.
pub proof fn offers_cover_the_store(store: Store, i: int)
    ensures
        0 <= i < by_attention(store).len() ==> all_items(store)[i] == go_item(
            by_attention(store)[i],
        ),
        0 <= i < sidebar::listed(store, Seq::empty()).len() ==> all_items(store)[by_attention(
            store,
        ).len() + i] == session_item(store, sidebar::listed(store, Seq::empty())[i]),
        all_items(store).len() == by_attention(store).len() + sidebar::listed(
            store,
            Seq::empty(),
        ).len() + retry_items(store, by_attention(store)).len() + merge_items(
            store,
            by_attention(store),
        ).len() + 6,
        forall|m: ItemModel|
            retry_items(store, by_attention(store)).contains(m) ==> #[trigger] all_items(
                store,
            ).contains(m),
        forall|m: ItemModel|
            merge_items(store, by_attention(store)).contains(m) ==> #[trigger] all_items(
                store,
            ).contains(m),
{
    let a = by_attention(store).map_values(|s: Seq<char>| go_item(s));
    let b = sidebar::listed(store, Seq::empty()).map_values(
        |s: Seq<char>| session_item(store, s),
    );
    let c = retry_items(store, by_attention(store));
    let d = merge_items(store, by_attention(store));
    let all = all_items(store);
    assert(all == a + b + c + d + fixed_items());
    assert forall|m: ItemModel| c.contains(m) implies #[trigger] all.contains(m) by {
        let k = choose|k: int| 0 <= k < c.len() && c[k] == m;
        assert(all[a.len() + b.len() + k] == m);
    }
    assert forall|m: ItemModel| d.contains(m) implies #[trigger] all.contains(m) by {
        let k = choose|k: int| 0 <= k < d.len() && d[k] == m;
        assert(all[a.len() + b.len() + c.len() + k] == m);
    }
}

/// What is chosen is asked for under the name it was offered with.
pub proof fn choices_ask_for_what_they_name(a: ActionModel, e: PaletteEffect)
    requires
        asks_for(a, e),
    ensures
        a matches ActionModel::SelectWorktree(s) ==> (e matches PaletteEffect::Send(
            Command::SelectWorktree { slug },
        ) && slug@ == s),
        a matches ActionModel::SelectSession(s) ==> (e matches PaletteEffect::Send(
            Command::SelectSession { id },
        ) && id@ == s),
        a matches ActionModel::RetryTask(s) ==> (e matches PaletteEffect::Send(
            Command::RetryTask { slug },
        ) && slug@ == s),
        a matches ActionModel::MergeWorktree(s) ==> (e matches PaletteEffect::Send(
            Command::MergeWorktree { slug },
        ) && slug@ == s),
        a is ToggleTerminal ==> e is ToggleTerminal,
        a is OpenWtDialog || a is SetRightTab ==> e is Nothing,
{
}

} // verus!
