//! The input row: prompts, review notes and replies.
use crate::review;
use crate::review::{DiffNote, NoteModel};
use crate::runtime::Command;
use crate::session::WorktreeRecord;
use crate::store::Store;
use crate::text;
use vstd::prelude::*;
use vstd::string::*;

verus! {

/// Where the next note goes: session, file, first line, and the last line of
/// a range.
pub type NoteTarget = (String, String, u32, Option<u32>);

/// What is being written, and the notes that were.
#[derive(Debug, PartialEq, Eq)]
pub struct Composer {
    pub diff_notes: Vec<DiffNote>,
    pub annotate_target: Option<NoteTarget>,
    /// The first line of a range whose last line is not chosen yet.
    pub annotate_anchor: Option<(String, String, u32)>,
    /// The note that is replied to.
    pub reply_target: Option<DiffNote>,
}

/// What a [`Composer`] holds.
pub struct ComposerModel {
    pub notes: Seq<NoteModel>,
    pub target: Option<(Seq<char>, Seq<char>, u32, Option<u32>)>,
    pub anchor: Option<(Seq<char>, Seq<char>, u32)>,
    pub reply: Option<NoteModel>,
}

/// What a target holds.
pub open spec fn target_of(t: Option<NoteTarget>) -> Option<(Seq<char>, Seq<char>, u32, Option<u32>)> {
    match t {
        Some((sid, file, line, end)) => Some((sid@, file@, line, end)),
        None => None,
    }
}

/// What an optional note holds.
pub open spec fn opt_note(n: Option<DiffNote>) -> Option<NoteModel> {
    match n {
        Some(x) => Some(x@),
        None => None,
    }
}

impl View for Composer {
    type V = ComposerModel;

    open spec fn view(&self) -> ComposerModel {
        ComposerModel {
            notes: review::note_models(self.diff_notes@),
            target: target_of(self.annotate_target),
            anchor: review::spot(self.annotate_anchor),
            reply: opt_note(self.reply_target),
        }
    }
}

/// What pressing Enter does.
#[derive(Debug, Clone, Copy, PartialEq, Eq, Structural)]
pub enum EnterRoute {
    /// Submit a note or a reply.
    Annotate,
    /// Send a prompt.
    Send,
    Nothing,
}

impl ComposerModel {
    /// A note, a reply or a range has been begun.
    pub open spec fn annotating(self) -> bool {
        self.target is Some || self.anchor is Some || self.reply is Some
    }

    /// Nothing has been begun.
    pub open spec fn cleared(self) -> ComposerModel {
        ComposerModel { target: None, anchor: None, reply: None, ..self }
    }

    /// What the bar above the input says: a reply comes before a note, a note
    /// before a range whose end is not chosen.
    pub open spec fn bar(self) -> Option<Seq<char>> {
        match self.reply {
            Some(n) => Some(
                "↳ reply on "@ + n.file + ":"@ + review::note_place(n)
                    + " — type below, Attach to append"@,
            ),
            None => match self.target {
                Some((sid, file, line, end)) => Some(
                    "✎ note on "@ + file + ":"@ + (match end {
                        Some(e) => text::dec(line as nat) + "-"@ + text::dec(e as nat),
                        None => text::dec(line as nat),
                    }) + " ("@ + text::first_chars(sid, 8) + ") — type below, Attach to add"@,
                ),
                None => match self.anchor {
                    Some((_, file, line)) => Some(
                        "✎ anchor "@ + file + ":"@ + text::dec(line as nat)
                            + " — click another line for a range"@,
                    ),
                    None => None,
                },
            },
        }
    }

    /// After a click on a line of a diff. A click in the file of the anchor
    /// makes the lines between them the target, or that one line; any other
    /// becomes the anchor.
    pub open spec fn clicked(self, sid: Seq<char>, file: Seq<char>, line: u32) -> ComposerModel {
        match self.anchor {
            Some((s, f, from)) if s == sid && f == file => ComposerModel {
                target: Some(
                    if from < line {
                        (sid, file, from, Some(line))
                    } else if line < from {
                        (sid, file, line, Some(from))
                    } else {
                        (sid, file, line, None)
                    },
                ),
                anchor: None,
                ..self
            },
            _ => ComposerModel { target: None, anchor: Some((sid, file, line)), ..self },
        }
    }

    /// After `text` was submitted, and whether it was used up. A reply whose
    /// note is gone, a blank text, and a text without a target are not.
    pub open spec fn submitted(self, typed: Seq<char>) -> (ComposerModel, bool) {
        let body = text::trim(typed, text::blank());
        if body.len() == 0 {
            (self, false)
        } else {
            match self.reply {
                Some(n) => match self.notes.index_of_first(n) {
                    Some(i) => (
                        ComposerModel {
                            notes: self.notes.update(
                                i,
                                NoteModel { replies: n.replies.push(body), ..n },
                            ),
                            reply: None,
                            ..self
                        },
                        true,
                    ),
                    None => (self, false),
                },
                None => match self.target {
                    Some((sid, file, line, end)) => (
                        ComposerModel {
                            notes: self.notes.push(
                                NoteModel {
                                    session_id: sid,
                                    file,
                                    line,
                                    end_line: end,
                                    text: body,
                                    replies: Seq::empty(),
                                },
                            ),
                            target: None,
                            anchor: None,
                            ..self
                        },
                        true,
                    ),
                    None => (self, false),
                },
            }
        }
    }
}

impl Default for Composer {
    fn default() -> (c: Composer)
        ensures
            c@ == (ComposerModel { notes: Seq::empty(), target: None, anchor: None, reply: None }),
    {
        Composer::new()
    }
}

impl Composer {
    /// A composer without notes in which nothing has been begun.
    pub fn new() -> (c: Composer)
        ensures
            c@ == (ComposerModel { notes: Seq::empty(), target: None, anchor: None, reply: None }),
    {
        let c = Composer {
            diff_notes: Vec::new(),
            annotate_target: None,
            annotate_anchor: None,
            reply_target: None,
        };
        assert(c@.notes =~= Seq::empty());
        c
    }

    /// What pressing Enter does: a note that has been begun takes it, even if
    /// only its anchor is set; else it sends a prompt, unless the session is
    /// busy.
    pub fn enter(&self, busy: bool) -> (r: EnterRoute)
        ensures
            r == (if self@.annotating() {
                EnterRoute::Annotate
            } else if busy {
                EnterRoute::Nothing
            } else {
                EnterRoute::Send
            }),
    {
        if self.annotate_target.is_some() || self.reply_target.is_some()
            || self.annotate_anchor.is_some() {
            EnterRoute::Annotate
        } else if busy {
            EnterRoute::Nothing
        } else {
            EnterRoute::Send
        }
    }

    /// What the bar above the input says; nothing in plain chat.
    pub fn render_note_bar(&self) -> (s: Option<String>)
        ensures
            text::opt_text(s) == self@.bar(),
            s is None <==> !self@.annotating(),
    {
        if let Some(n) = &self.reply_target {
            let mut s = "↳ reply on ".to_owned();
            s.append(n.file.as_str());
            s.append(":");
            s.append(review::place_of(n).as_str());
            s.append(" — type below, Attach to append");
            return Some(s);
        }
        if let Some((sid, file, line, end)) = &self.annotate_target {
            let place = range_text(*line, *end);
            let mut s = "✎ note on ".to_owned();
            s.append(file.as_str());
            s.append(":");
            s.append(place.as_str());
            s.append(" (");
            s.append(text::take_chars(sid.as_str(), 8).as_str());
            s.append(") — type below, Attach to add");
            return Some(s);
        }
        if let Some((_, file, line)) = &self.annotate_anchor {
            let mut s = "✎ anchor ".to_owned();
            s.append(file.as_str());
            s.append(":");
            s.append(text::decimal(*line as u64).as_str());
            s.append(" — click another line for a range");
            return Some(s);
        }
        None
    }

    /// Forgets what has been begun.
    pub fn cancel(&mut self)
        ensures
            final(self)@ == old(self)@.cleared(),
    {
        self.annotate_target = None;
        self.annotate_anchor = None;
        self.reply_target = None;
    }

    /// Submits a text as a reply or a note. Returns whether it was used up;
    /// where it was not, nothing changes and the text stays.
    pub fn submit_annotate(&mut self, typed: &str) -> (used: bool)
        ensures
            (final(self)@, used) == old(self)@.submitted(typed@),
    {
        let body = text::trimmed(typed);
        if body.as_str().is_empty() {
            return false;
        }
        let mut reply: Option<DiffNote> = None;
        std::mem::swap(&mut reply, &mut self.reply_target);
        match reply {
            Some(target) => {
                let ghost notes = review::note_models(self.diff_notes@);
                proof {
                    notes.index_of_first_ensures(target@);
                }
                let found = review::append_reply(
                    self.diff_notes.as_mut_slice(),
                    &target,
                    body,
                );
                if !found {
                    self.reply_target = Some(target);
                }
                found
            },
            None => {
                let mut at: Option<NoteTarget> = None;
                std::mem::swap(&mut at, &mut self.annotate_target);
                match at {
                    Some((sid, file, line, end)) => {
                        let note = DiffNote {
                            session_id: sid,
                            file,
                            line,
                            end_line: end,
                            text: body,
                            replies: Vec::new(),
                        };
                        assert(text::texts(note.replies@) =~= Seq::empty());
                        let ghost was = self.diff_notes@;
                        self.diff_notes.push(note);
                        assert(review::note_models(self.diff_notes@) =~= review::note_models(
                            was,
                        ).push(note@));
                        self.annotate_anchor = None;
                        true
                    },
                    None => false,
                }
            },
        }
    }

    /// Takes in a click on a line of a diff: session, file and line.
    pub fn click_line(&mut self, at: (String, String, u32))
        ensures
            final(self)@ == old(self)@.clicked(at.0@, at.1@, at.2),
    {
        let mut anchor: Option<(String, String, u32)> = None;
        std::mem::swap(&mut anchor, &mut self.annotate_anchor);
        let (sid, file, line) = at;
        let here = (sid.clone(), file.clone(), line);
        let (next, range) = review::resolve_range(anchor, here);
        self.annotate_anchor = next;
        self.annotate_target = match range {
            Some((from, to)) => if from < to {
                Some((sid, file, from, Some(to)))
            } else {
                Some((sid, file, from, None))
            },
            None => None,
        };
    }

    /// Takes the notes of a session out, as the command that sends them.
    pub fn send_notes(&mut self, sid: &str) -> (c: Command)
        ensures
            final(self)@ == (ComposerModel {
                notes: review::notes_but(old(self)@.notes, sid@),
                ..old(self)@
            }),
            c matches Command::SendNotes { session_id, notes } && session_id@ == sid@
                && review::note_models(notes@) == review::notes_of(old(self)@.notes, sid@),
    {
        let mut all: Vec<DiffNote> = Vec::new();
        std::mem::swap(&mut all, &mut self.diff_notes);
        let (notes, others) = review::take_notes(all, sid);
        self.diff_notes = others;
        Command::SendNotes { session_id: sid.to_owned(), notes }
    }
}

fn range_text(line: u32, end: Option<u32>) -> (s: String)
    ensures
        s@ == (match end {
            Some(e) => text::dec(line as nat) + "-"@ + text::dec(e as nat),
            None => text::dec(line as nat),
        }),
{
    let mut s = text::decimal(line as u64);
    if let Some(e) = end {
        s.append("-");
        s.append(text::decimal(e as u64).as_str());
    }
    s
}

/// The active session has work to do.
pub open spec fn busy(store: Store) -> bool {
    text::opt_text(store.active_session) matches Some(sid) && store.works(sid)
}

/// The prompt to send: the text as it was typed, where it is not blank and
/// there is an active session with nothing to do.
pub fn send_prompt(store: &Store, typed: &str) -> (c: Option<Command>)
    ensures
        match c {
            Some(cmd) => store.active_session is Some && !busy(*store) && text::trim(
                typed@,
                text::blank(),
            ).len() > 0 && (cmd matches Command::Prompt { text } && text@ == typed@),
            None => store.active_session is None || busy(*store) || text::trim(
                typed@,
                text::blank(),
            ).len() == 0,
        },
{
    if store.active_session.is_none() || text::trimmed(typed).as_str().is_empty()
        || store.is_busy() {
        return None;
    }
    Some(Command::Prompt { text: typed.to_owned() })
}

/// The prompt to send to all worktrees: the text as it was typed, where it is
/// not blank and the active session has nothing to do.
pub fn send_fan_out(store: &Store, typed: &str) -> (c: Option<Command>)
    ensures
        match c {
            Some(cmd) => !busy(*store) && text::trim(typed@, text::blank()).len() > 0 && (
            cmd matches Command::FanOut { text } && text@ == typed@),
            None => busy(*store) || text::trim(typed@, text::blank()).len() == 0,
        },
{
    if text::trimmed(typed).as_str().is_empty() || store.is_busy() {
        return None;
    }
    Some(Command::FanOut { text: typed.to_owned() })
}

/// The buttons beside the input.
#[derive(Debug, Clone, Copy, PartialEq, Eq, Structural)]
pub enum Buttons {
    /// The session works: it can be stopped.
    Abort,
    /// Whether a prompt can be sent to the session, and to all worktrees.
    Send { send: bool, fan_out: bool },
}

/// Some worktree has a session.
pub open spec fn any_linked(worktrees: Seq<(Seq<char>, WorktreeRecord)>) -> bool {
    exists|i: int| 0 <= i < worktrees.len() && (#[trigger] worktrees[i]).1.session_id is Some
}

/// The buttons beside the input.
pub fn render_composer(store: &Store) -> (b: Buttons)
    ensures
        b == (if busy(*store) {
            Buttons::Abort
        } else {
            Buttons::Send {
                send: store.active_session is Some,
                fan_out: any_linked(store.worktrees.entries()),
            }
        }),
{
    if store.is_busy() {
        return Buttons::Abort;
    }
    let n: usize = store.worktrees.len();
    let mut linked = false;
    let mut i: usize = 0;
    while i < n
        invariant
            i <= n == store.worktrees.entries().len(),
            linked == exists|k: int|
                0 <= k < i && (#[trigger] store.worktrees.entries()[k]).1.session_id is Some,
        decreases n - i,
    {
        if store.worktrees.value_at(i).session_id.is_some() {
            assert(store.worktrees.entries()[i as int].1.session_id is Some);
            linked = true;
        }
        i += 1;
    }
    Buttons::Send { send: store.active_session.is_some(), fan_out: linked }
}

/// A text is either used up or left with everything as it was: no note and no
/// reply gets lost.
pub proof fn unused_text_changes_nothing(m: ComposerModel, typed: Seq<char>)
    ensures
        !m.submitted(typed).1 ==> m.submitted(typed).0 == m,
        m.submitted(typed).0.notes.len() >= m.notes.len(),
{
    if let Some(n) = m.reply {
        m.notes.index_of_first_ensures(n);
    }
}

/// A note that was submitted is the last of the notes, with what was typed
/// without the white space around it, and nothing is begun any more.
pub proof fn submitted_note_is_kept(
    m: ComposerModel,
    typed: Seq<char>,
    sid: Seq<char>,
    file: Seq<char>,
    line: u32,
    end: Option<u32>,
)
    requires
        m.reply is None,
        m.target == Some((sid, file, line, end)),
        text::trim(typed, text::blank()).len() > 0,
    ensures
        m.submitted(typed).1,
        m.submitted(typed).0.notes.last() == (NoteModel {
            session_id: sid,
            file,
            line,
            end_line: end,
            text: text::trim(typed, text::blank()),
            replies: Seq::empty(),
        }),
        !m.submitted(typed).0.annotating(),
{
}

/// Two clicks in one file choose the lines between them, in either order, and
/// two on one line choose that line alone; nothing is left of the first.
pub proof fn two_clicks_choose_a_range(
    m: ComposerModel,
    sid: Seq<char>,
    file: Seq<char>,
    a: u32,
    b: u32,
)
    requires
        m.anchor is None,
    ensures
        m.clicked(sid, file, a).clicked(sid, file, b) == m.clicked(sid, file, b).clicked(
            sid,
            file,
            a,
        ),
        m.clicked(sid, file, a).clicked(sid, file, b).anchor is None,
        m.clicked(sid, file, a).clicked(sid, file, b).target == Some(
            (
                sid,
                file,
                if a <= b {
                    a
                } else {
                    b
                },
                if a == b {
                    None::<u32>
                } else if a < b {
                    Some(b)
                } else {
                    Some(a)
                },
            ),
        ),
{
}

/// A reply goes to the note it was meant for: the words stand last among its
/// replies, and no other note changes.
pub proof fn reply_joins_its_note(m: ComposerModel, typed: Seq<char>, at: int)
    requires
        0 <= at < m.notes.len(),
        m.reply == Some(m.notes[at]),
        forall|i: int| 0 <= i < at ==> #[trigger] m.notes[i] != m.notes[at],
        text::trim(typed, text::blank()).len() > 0,
    ensures
        ({
            let now = m.submitted(typed).0;
            &&& m.submitted(typed).1
            &&& now.notes.len() == m.notes.len()
            &&& now.notes[at].replies.len() == m.notes[at].replies.len() + 1
            &&& now.notes[at].replies.last() == text::trim(typed, text::blank())
            &&& now.notes[at].replies.drop_last() == m.notes[at].replies
            &&& now.notes[at].text == m.notes[at].text
            &&& now.notes[at].line == m.notes[at].line
            &&& now.notes[at].file == m.notes[at].file
            &&& forall|i: int|
                0 <= i < m.notes.len() && i != at ==> #[trigger] now.notes[i] == m.notes[i]
            &&& now.reply is None
        }),
{
    let n = m.notes[at];
    m.notes.index_of_first_ensures(n);
    assert(m.notes.contains(n));
    let i = m.notes.index_of_first(n)->Some_0;
    assert(i == at) by {
        if i < at {
            assert(m.notes[i] != m.notes[at]);
        }
    }
    let body = text::trim(typed, text::blank());
    assert(n.replies.push(body).drop_last() =~= n.replies);
}

/// Blank words are no note and no reply, and words without a place to stand
/// are kept where they were typed.
pub proof fn words_need_a_place(m: ComposerModel, typed: Seq<char>)
    ensures
        text::trim(typed, text::blank()).len() == 0 ==> m.submitted(typed) == (m, false),
        m.reply is None && m.target is None ==> m.submitted(typed) == (m, false),
{
}

/// A click on another file or session starts over: the line is the new anchor
/// and nothing is aimed at.
pub proof fn click_elsewhere_starts_over(
    m: ComposerModel,
    sid: Seq<char>,
    file: Seq<char>,
    line: u32,
)
    requires
        m.anchor matches Some((s, f, _)) ==> s != sid || f != file,
    ensures
        m.clicked(sid, file, line).anchor == Some((sid, file, line)),
        m.clicked(sid, file, line).target is None,
        m.clicked(sid, file, line).notes == m.notes,
        !m.cleared().annotating(),
        m.cleared().notes == m.notes,
{
}

/// What is being written is shown: a reply before a note, a note before an
/// anchor, each with its file and place; where nothing is, nothing is shown.
pub proof fn bar_shows_what_is_written(m: ComposerModel)
    ensures
        m.bar() is Some <==> m.annotating(),
        m.reply matches Some(n) ==> m.bar() == Some(
            "↳ reply on "@ + n.file + ":"@ + review::note_place(n)
                + " — type below, Attach to append"@,
        ),
        m.reply is None ==> (m.target matches Some((sid, file, line, end)) ==> m.bar() == Some(
            "✎ note on "@ + file + ":"@ + (match end {
                Some(e) => text::dec(line as nat) + "-"@ + text::dec(e as nat),
                None => text::dec(line as nat),
            }) + " ("@ + text::first_chars(sid, 8) + ") — type below, Attach to add"@,
        )),
        m.reply is None && m.target is None ==> (m.anchor matches Some((s, file, line)) ==> m.bar()
            == Some(
            "✎ anchor "@ + file + ":"@ + text::dec(line as nat)
                + " — click another line for a range"@,
        )),
{
}

/// The composer is busy while the active session works.
pub proof fn busy_while_the_active_session_works(store: Store, sid: String)
    ensures
        store.active_session is None ==> !busy(store),
        store.active_session == Some(sid) ==> (busy(store) <==> store.statuses@.dom().contains(sid@)
            && !(store.statuses@[sid@] is Idle)),
{
}

} // verus!
