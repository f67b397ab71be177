//! What an agent has in its context, as sections with estimated sizes.
use crate::session::Usage;
use crate::store;
use crate::store::Store;
use crate::task;
use crate::text;
use crate::transcript;
use crate::transcript::{MessageModel, Role, UnifiedMessage};
use vstd::prelude::*;
use vstd::string::*;

verus! {

/// Kind of a section.
#[derive(Debug, Clone, Copy, PartialEq, Eq, Structural)]
pub enum SectionKind {
    System,
    User,
    Assistant,
    Reasoning,
    ToolCall,
    Other,
}

/// One section of a context.
#[derive(Debug, Clone, PartialEq, Eq)]
pub struct ContextSection {
    pub label: String,
    pub kind: SectionKind,
    pub detail: String,
    pub est_tokens: usize,
}

/// What a [`ContextSection`] holds.
pub struct SectionModel {
    pub label: Seq<char>,
    pub kind: SectionKind,
    pub detail: Seq<char>,
    pub est_tokens: nat,
}

impl View for ContextSection {
    type V = SectionModel;

    open spec fn view(&self) -> SectionModel {
        SectionModel {
            label: self.label@,
            kind: self.kind,
            detail: self.detail@,
            est_tokens: self.est_tokens as nat,
        }
    }
}

/// The context of the active session.
#[derive(Debug, Clone)]
pub struct ContextView {
    pub sections: Vec<ContextSection>,
    pub est_total_tokens: usize,
    /// What the session's task really cost.
    pub actual: Option<Usage>,
}

/// About a token for every four characters, one more for any text at all.
pub open spec fn tokens_in(s: Seq<char>) -> nat {
    s.len() / 4 + (if s.len() > 0 {
        1nat
    } else {
        0nat
    })
}

/// An estimate of the tokens in a text.
pub fn est_tokens(text: &str) -> (n: usize)
    ensures
        n == tokens_in(text@),
{
    let c = text::chars_of(text);
    if c.len() > 0 {
        c.len() / 4 + 1
    } else {
        0
    }
}

/// The section that stands for the system prompt.
pub open spec fn system_section() -> SectionModel {
    SectionModel {
        label: "system prompt"@,
        kind: SectionKind::System,
        detail: "injected by the agent (not exposed to ADE)"@,
        est_tokens: 2000,
    }
}

/// The section of a message.
pub open spec fn section_of(m: MessageModel) -> SectionModel {
    SectionModel {
        label: match m.role {
            Role::User => "user"@,
            Role::Agent => "assistant"@,
            Role::Tool => match m.tool {
                Some(name) => "tool:"@ + name,
                None => "tool"@,
            },
        },
        kind: match m.role {
            Role::User => SectionKind::User,
            Role::Agent => SectionKind::Assistant,
            Role::Tool => SectionKind::ToolCall,
        },
        detail: task::capped(m.text, 400),
        est_tokens: tokens_in(m.text),
    }
}

/// The sections of the messages that are not blank.
pub open spec fn sections_of(msgs: Seq<MessageModel>) -> Seq<SectionModel>
    decreases msgs.len(),
{
    if msgs.len() == 0 {
        Seq::empty()
    } else if text::trim(msgs.last().text, text::blank()).len() == 0 {
        sections_of(msgs.drop_last())
    } else {
        sections_of(msgs.drop_last()).push(section_of(msgs.last()))
    }
}

/// The sum of the estimates of some sections.
pub open spec fn total_of(sections: Seq<SectionModel>) -> nat
    decreases sections.len(),
{
    if sections.len() == 0 {
        0
    } else {
        total_of(sections.drop_last()) + sections.last().est_tokens
    }
}

/// What a list of sections holds.
pub open spec fn models(v: Seq<ContextSection>) -> Seq<SectionModel> {
    v.map_values(|s: ContextSection| s@)
}

fn message_section(m: &UnifiedMessage) -> (s: ContextSection)
    ensures
        s@ == section_of(m@),
{
    let (label, kind) = match m.role {
        Role::User => ("user".to_owned(), SectionKind::User),
        Role::Agent => ("assistant".to_owned(), SectionKind::Assistant),
        Role::Tool => {
            let label = match &m.tool {
                Some(t) => {
                    let mut l = "tool:".to_owned();
                    l.append(t.name.as_str());
                    l
                },
                None => "tool".to_owned(),
            };
            (label, SectionKind::ToolCall)
        },
    };
    ContextSection {
        label,
        kind,
        detail: task::cap_text(m.text.as_str(), 400),
        est_tokens: est_tokens(m.text.as_str()),
    }
}

fn sum(sections: &Vec<ContextSection>) -> (n: usize)
    ensures
        n == (if total_of(models(sections@)) <= usize::MAX {
            total_of(models(sections@))
        } else {
            usize::MAX as nat
        }),
{
    let ghost all = models(sections@);
    let mut n: usize = 0;
    let mut i: usize = 0;
    assert(all.take(0) =~= Seq::empty());
    while i < sections.len()
        invariant
            i <= sections@.len(),
            all == models(sections@),
            n == (if total_of(all.take(i as int)) <= usize::MAX {
                total_of(all.take(i as int))
            } else {
                usize::MAX as nat
            }),
        decreases sections@.len() - i,
    {
        assert(all.take(i + 1).drop_last() =~= all.take(i as int));
        assert(all[i as int] == sections@[i as int]@);
        n = n.saturating_add(sections[i].est_tokens);
        i += 1;
    }
    assert(all.take(all.len() as int) =~= all);
    n
}

/// The sections of a store's context: the system prompt, then what the active
/// session's transcript holds.
pub open spec fn context_sections(s: Store) -> Seq<SectionModel> {
    match text::opt_text(s.active_session) {
        Some(sid) => seq![system_section()] + sections_of(
            transcript::messages(s.transcript_of(sid)),
        ),
        None => seq![system_section()],
    }
}

/// What the task of the active session cost.
pub open spec fn context_cost(s: Store) -> Option<Usage> {
    match text::opt_text(s.active_session) {
        Some(sid) => if s.session_task@.dom().contains(sid) && s.costs@.dom().contains(
            s.session_task@[sid],
        ) {
            Some(s.costs@[s.session_task@[sid]])
        } else {
            None
        },
        None => None,
    }
}

/// The context of the active session. The estimate of the whole is the sum of
/// its parts, at most the largest number there is.
pub fn compile(store: &Store) -> (v: ContextView)
    ensures
        models(v.sections@) == context_sections(*store),
        v.est_total_tokens == (if total_of(context_sections(*store)) <= usize::MAX {
            total_of(context_sections(*store))
        } else {
            usize::MAX as nat
        }),
        v.actual == context_cost(*store),
{
    let mut sections: Vec<ContextSection> = Vec::new();
    sections.push(
        ContextSection {
            label: "system prompt".to_owned(),
            kind: SectionKind::System,
            detail: "injected by the agent (not exposed to ADE)".to_owned(),
            est_tokens: 2000,
        },
    );
    assert(models(sections@) =~= seq![system_section()]);
    let sid = match &store.active_session {
        Some(sid) => sid.as_str(),
        None => {
            let est_total_tokens: usize = sum(&sections);
            return ContextView { sections, est_total_tokens, actual: None };
        },
    };
    let msgs = store.transcript_for_session(sid);
    let ghost all = transcript::messages(msgs@);
    let mut i: usize = 0;
    assert(all.take(0) =~= Seq::empty());
    assert(models(sections@) =~= seq![system_section()] + sections_of(all.take(0)));
    while i < msgs.len()
        invariant
            i <= msgs@.len(),
            all == transcript::messages(msgs@),
            models(sections@) == seq![system_section()] + sections_of(all.take(i as int)),
        decreases msgs@.len() - i,
    {
        assert(all.take(i + 1).drop_last() =~= all.take(i as int));
        let m = &msgs[i];
        assert(all[i as int] == m@);
        if !text::trimmed(m.text.as_str()).as_str().is_empty() {
            let ghost was = models(sections@);
            let section = message_section(m);
            sections.push(section);
            assert(models(sections@) =~= was.push(section@));
            assert(models(sections@) =~= seq![system_section()] + sections_of(all.take(i + 1)));
        }
        i += 1;
    }
    assert(all.take(all.len() as int) =~= all);
    let actual = match store.session_task.get(sid) {
        Some(t) => match store.costs.get(t) {
            Some(u) => Some(*u),
            None => None,
        },
        None => None,
    };
    let est_total_tokens: usize = sum(&sections);
    ContextView { sections, est_total_tokens, actual }
}

/// A transcript shows one section for each message that is not blank, in
/// order, under who spoke, cut where it is long; the tokens are estimated from
/// the whole text.
pub proof fn sections_show_each_message(msgs: Seq<MessageModel>, m: MessageModel)
    ensures
        sections_of(msgs) == msgs.filter(
            |m: MessageModel| text::trim(m.text, text::blank()).len() > 0,
        ).map_values(|m: MessageModel| section_of(m)),
        section_of(m).kind == (match m.role {
            Role::User => SectionKind::User,
            Role::Agent => SectionKind::Assistant,
            Role::Tool => SectionKind::ToolCall,
        }),
        m.text.len() <= 400 ==> section_of(m).detail == m.text,
        m.text.len() > 400 ==> section_of(m).detail.len() == 401 && section_of(m).detail.take(400)
            == m.text.take(400),
        section_of(m).est_tokens == if m.text.len() == 0 {
            0
        } else {
            m.text.len() / 4 + 1
        },
        m.role == Role::User ==> section_of(m).label == "user"@,
        m.role == Role::Agent ==> section_of(m).label == "assistant"@,
        m.role == Role::Tool && m.tool is Some ==> section_of(m).label == "tool:"@ + m.tool->Some_0,
        m.role == Role::Tool && m.tool is None ==> section_of(m).label == "tool"@,
    decreases msgs.len(),
{
    reveal(Seq::filter);
    reveal_strlit("…");
    let p = |m: MessageModel| text::trim(m.text, text::blank()).len() > 0;
    let f = |m: MessageModel| section_of(m);
    if m.text.len() > 400 {
        assert(section_of(m).detail.take(400) =~= m.text.take(400));
    }
    if msgs.len() > 0 {
        sections_show_each_message(msgs.drop_last(), m);
        let some = msgs.drop_last().filter(p);
        assert(some.push(msgs.last()).map_values(f) =~= some.map_values(f).push(f(msgs.last())));
    }
    assert(sections_of(msgs) =~= msgs.filter(p).map_values(f));
}

/// The tokens of some sections are those of each, added up.
pub proof fn tokens_add_up(a: Seq<SectionModel>, b: Seq<SectionModel>, one: SectionModel)
    ensures
        total_of(a + b) == total_of(a) + total_of(b),
        total_of(seq![one]) == one.est_tokens,
        total_of(Seq::empty()) == 0,
    decreases b.len(),
{
    reveal_with_fuel(total_of, 2);
    assert(seq![one].drop_last() =~= Seq::empty());
    if b.len() == 0 {
        assert(a + b =~= a);
    } else {
        assert((a + b).drop_last() =~= a + b.drop_last());
        tokens_add_up(a, b.drop_last(), one);
    }
}

/// The context begins with the system prompt, and goes on with the transcript
/// of the active session's task, where there is one.
pub proof fn context_is_of_the_active_session(s: Store, sid: String)
    ensures
        context_sections(s).len() > 0,
        context_sections(s)[0].kind == SectionKind::System,
        context_sections(s)[0].est_tokens == 2000,
        s.active_session is None ==> context_sections(s).len() == 1 && context_cost(s) is None,
        s.active_session == Some(sid) ==> context_sections(s).skip(1) == sections_of(
            transcript::messages(s.transcript_of(sid@)),
        ),
        s.active_session == Some(sid) && s.session_task@.dom().contains(sid@) && s.costs@.dom().contains(
            s.session_task@[sid@],
        ) ==> context_cost(s) == Some(s.costs@[s.session_task@[sid@]]),
        s.active_session == Some(sid) && !s.session_task@.dom().contains(sid@) ==> context_cost(
            s,
        ) is None,
{
    if s.active_session == Some(sid) {
        assert(context_sections(s).skip(1) =~= sections_of(
            transcript::messages(s.transcript_of(sid@)),
        ));
    }
}

} // verus!
