//! The question with which an agent waits for a decision.
use crate::runtime::{Command, PermissionResponse};
use crate::session::PendingPermission;
use crate::store::Store;
use crate::text;
use vstd::prelude::*;
use vstd::string::*;

verus! {

/// What the question shows.
#[derive(Debug, Clone, PartialEq, Eq)]
pub struct PermissionCard {
    pub permission_id: String,
    pub title: String,
    pub kind: String,
    /// The command that is asked for, in full.
    pub command: Option<String>,
    /// What it would apply to.
    pub patterns: Option<String>,
}

/// What a [`PermissionCard`] holds.
pub struct CardModel {
    pub permission_id: Seq<char>,
    pub title: Seq<char>,
    pub kind: Seq<char>,
    pub command: Option<Seq<char>>,
    pub patterns: Option<Seq<char>>,
}

impl View for PermissionCard {
    type V = CardModel;

    open spec fn view(&self) -> CardModel {
        CardModel {
            permission_id: self.permission_id@,
            title: self.title@,
            kind: self.kind@,
            command: text::opt_text(self.command),
            patterns: text::opt_text(self.patterns),
        }
    }
}

/// The question for a permission with `queue` of them waiting: where there are
/// more than one it says so.
pub open spec fn card_of(p: PendingPermission, queue: nat) -> CardModel {
    CardModel {
        permission_id: p.permission_id@,
        title: if queue > 1 {
            "🔒 Permission required (1 of "@ + text::dec(queue) + ")"@
        } else {
            "🔒 Permission required"@
        },
        kind: p.kind@,
        command: text::opt_text(p.command),
        patterns: if p.patterns@.len() == 0 {
            None
        } else {
            Some(text::join(text::texts(p.patterns@), ", "@))
        },
    }
}

/// The question for a permission with `queue` of them waiting.
pub fn render_permission_overlay(p: &PendingPermission, queue: usize) -> (c: PermissionCard)
    ensures
        c@ == card_of(*p, queue as nat),
{
    let title = if queue > 1 {
        let mut t = "🔒 Permission required (1 of ".to_owned();
        t.append(text::decimal(queue as u64).as_str());
        t.append(")");
        t
    } else {
        "🔒 Permission required".to_owned()
    };
    let patterns = if p.patterns.len() == 0 {
        None
    } else {
        Some(text::joined(&p.patterns, ", "))
    };
    PermissionCard {
        permission_id: p.permission_id.clone(),
        title,
        kind: p.kind.clone(),
        command: text::copy_opt(&p.command),
        patterns,
    }
}

/// The question that is shown: the first permission in the order of their
/// identities, if any waits.
pub fn first_gate(store: &Store) -> (c: Option<PermissionCard>)
    ensures
        match c {
            None => store.pending_permissions.entries().len() == 0,
            Some(card) => store.pending_permissions.entries().len() > 0 && card@ == card_of(
                store.pending_permissions.entries()[0].1,
                store.pending_permissions.entries().len(),
            ),
        },
{
    let queue: usize = store.pending_permissions.len();
    if queue == 0 {
        None
    } else {
        Some(render_permission_overlay(store.pending_permissions.value_at(0), queue))
    }
}

/// The command that answers the question.
pub fn answer(card: &PermissionCard, response: PermissionResponse) -> (c: Command)
    ensures
        c matches Command::PermissionReply { permission_id, response: r } && permission_id@
            == card@.permission_id && r == response,
{
    Command::PermissionReply { permission_id: card.permission_id.clone(), response }
}

/// A card shows the request it is of: its command where there is one, its
/// patterns one behind the other where there are any, and how many wait where
/// it is not alone.
pub proof fn card_shows_the_request(p: PendingPermission, queue: nat)
    ensures
        card_of(p, queue).permission_id == p.permission_id@,
        card_of(p, queue).kind == p.kind@,
        p.command is None <==> card_of(p, queue).command is None,
        p.command matches Some(c) ==> card_of(p, queue).command == Some(c@),
        p.patterns@.len() == 0 <==> card_of(p, queue).patterns is None,
        p.patterns@.len() == 1 ==> card_of(p, queue).patterns == Some(p.patterns@[0]@),
        p.patterns@.len() == 2 ==> card_of(p, queue).patterns == Some(
            p.patterns@[0]@ + seq![',', ' '] + p.patterns@[1]@,
        ),
        queue <= 1 ==> card_of(p, queue).title == "🔒 Permission required"@,
        queue > 1 ==> card_of(p, queue).title == "🔒 Permission required (1 of "@ + text::dec(queue)
            + ")"@,
{
    reveal_strlit(", ");
    assert(", "@ =~= seq![',', ' ']);
    let v = text::texts(p.patterns@);
    if p.patterns@.len() == 2 {
        text::join_separates(v.take(1), v.skip(1), v[0], ", "@);
        assert(v.take(1) + v.skip(1) =~= v);
        assert(v.take(1) =~= seq![v[0]]);
        assert(v.skip(1) =~= seq![v[1]]);
        text::join_separates(v, v, v[0], ", "@);
        text::join_separates(v, v, v[1], ", "@);
    }
}

} // verus!
