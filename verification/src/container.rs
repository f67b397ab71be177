//! The desk of the container worker: one container per worktree, each with a
//! preview port of its own.
use crate::outside::Failure;
use crate::paths;
use crate::sbx;
use crate::sorted_map::StrMap;
use vstd::prelude::*;
use vstd::string::*;

verus! {

/// State of a container.
#[derive(Debug, Clone, PartialEq, Eq)]
pub enum ContainerState {
    Missing,
    Pulling,
    Running,
    Paused,
    Stopped,
    Error(String),
}

/// What a [`ContainerState`] holds.
pub enum BoxModel {
    Missing,
    Pulling,
    Running,
    Paused,
    Stopped,
    Error(Seq<char>),
}

impl View for ContainerState {
    type V = BoxModel;

    open spec fn view(&self) -> BoxModel {
        match self {
            ContainerState::Missing => BoxModel::Missing,
            ContainerState::Pulling => BoxModel::Pulling,
            ContainerState::Running => BoxModel::Running,
            ContainerState::Paused => BoxModel::Paused,
            ContainerState::Stopped => BoxModel::Stopped,
            ContainerState::Error(e) => BoxModel::Error(e@),
        }
    }
}

/// What the worker reports.
#[derive(Debug, Clone, PartialEq, Eq)]
pub struct ContainerReport {
    pub slug: String,
    pub state: ContainerState,
}

/// What a [`ContainerReport`] holds.
pub struct BoxReport {
    pub slug: Seq<char>,
    pub state: BoxModel,
}

impl View for ContainerReport {
    type V = BoxReport;

    open spec fn view(&self) -> BoxReport {
        BoxReport { slug: self.slug@, state: self.state@ }
    }
}

/// The workspace of a checkout: the directory that holds the worktrees that
/// it lies in, or the checkout itself.
pub fn workspace_root(path: &str) -> (r: String)
    ensures
        r@ == paths::root_of(path@, ".dione-worktrees"@),
{
    paths::root_above(path, ".dione-worktrees")
}

/// A container that runs: its name and its port for previews.
#[derive(Debug)]
pub struct Guest {
    pub name: String,
    pub preview: Option<u16>,
}

/// What a [`Guest`] holds.
pub struct GuestModel {
    pub name: Seq<char>,
    pub preview: Option<u16>,
}

impl View for Guest {
    type V = GuestModel;

    open spec fn view(&self) -> GuestModel {
        GuestModel { name: self.name@, preview: self.preview }
    }
}

/// A container that is being brought up.
#[derive(Debug)]
pub struct Pending {
    pub slug: String,
    pub key: String,
    pub name: String,
    pub preview: Option<u16>,
}

/// What a [`Pending`] holds.
pub struct PendingModel {
    pub slug: Seq<char>,
    pub key: Seq<char>,
    pub name: Seq<char>,
    pub preview: Option<u16>,
}

impl View for Pending {
    type V = PendingModel;

    open spec fn view(&self) -> PendingModel {
        PendingModel {
            slug: self.slug@,
            key: self.key@,
            name: self.name@,
            preview: self.preview,
        }
    }
}

/// What the worker keeps: the containers by worktree, the next port, and the
/// container that is being brought up.
pub struct ContainerDesk {
    guests: StrMap<Guest>,
    next_preview: u16,
    pending: Option<Pending>,
}

/// What a [`ContainerDesk`] holds.
pub struct DeskModel {
    pub guests: Map<Seq<char>, GuestModel>,
    pub next_preview: u16,
    pub pending: Option<PendingModel>,
}

impl DeskModel {
    /// Some container other than that of `key` has the port `p`.
    pub open spec fn taken(self, key: Seq<char>, p: u16) -> bool {
        exists|k: Seq<char>|
            #[trigger] self.guests.dom().contains(k) && k != key && self.guests[k].preview == Some(p)
    }

    /// Every port that is in use was handed out, and no two containers have
    /// the same one; nor has the container that is being brought up.
    pub open spec fn valid(self) -> bool {
        &&& 4100 <= self.next_preview <= 4200
        &&& forall|k: Seq<char>| #[trigger]
            self.guests.dom().contains(k) ==> self.fits(k, self.guests[k].preview)
        &&& match self.pending {
            Some(w) => self.fits(w.key, w.preview),
            None => true,
        }
    }

    /// The port of the container of `key` was handed out and is its own.
    pub open spec fn fits(self, key: Seq<char>, preview: Option<u16>) -> bool {
        match preview {
            Some(p) => 4100 <= p < self.next_preview && !self.taken(key, p),
            None => true,
        }
    }

    /// The port for the container of `key`: the one it has, else the next one
    /// as long as there is one.
    pub open spec fn preview_for(self, key: Seq<char>) -> Option<u16> {
        if self.guests.dom().contains(key) && self.guests[key].preview is Some {
            self.guests[key].preview
        } else if self.next_preview <= 4199 {
            Some(self.next_preview)
        } else {
            None
        }
    }

    /// The port handed out after this one.
    pub open spec fn next_after(self, key: Seq<char>) -> u16 {
        if self.guests.dom().contains(key) && self.guests[key].preview is Some {
            self.next_preview
        } else if self.next_preview <= 4199 {
            (self.next_preview + 1) as u16
        } else {
            self.next_preview
        }
    }
}

impl View for ContainerDesk {
    type V = DeskModel;

    closed spec fn view(&self) -> DeskModel {
        desk_model(self.guests@, self.next_preview, self.pending)
    }
}

spec fn desk_model(
    guests: Map<Seq<char>, Guest>,
    next_preview: u16,
    pending: Option<Pending>,
) -> DeskModel {
    DeskModel {
        guests: guests.map_values(|g: Guest| g@),
        next_preview,
        pending: match pending {
            Some(p) => Some(p@),
            None => None,
        },
    }
}

/// What to do about a container that is asked for.
#[derive(Debug, PartialEq, Eq)]
pub enum EnsureBox {
    /// Report this and do nothing.
    Refuse(ContainerReport),
    /// Report this, then bring up the container for the workspace `root`,
    /// with this port.
    Start { report: ContainerReport, root: String, preview: Option<u16> },
}

impl ContainerDesk {
    #[verifier::type_invariant]
    spec fn distinct_ports(self) -> bool {
        self@.valid()
    }

    /// No containers; the first port comes next.
    pub fn new() -> (d: ContainerDesk)
        ensures
            d@.guests == Map::<Seq<char>, GuestModel>::empty(),
            d@.next_preview == 4100,
            d@.pending is None,
            d@.valid(),
    {
        let guests: StrMap<Guest> = StrMap::new();
        proof {
            let m = desk_model(guests@, 4100, None);
            assert(m.guests =~= Map::empty());
            assert(m.valid());
        }
        ContainerDesk { guests, next_preview: 4100, pending: None }
    }

    /// Begins to bring up the container of a worktree under the name `name`:
    /// refused without podman, else reported as being fetched, with its port.
    pub fn on_ensure(
        &mut self,
        slug: &str,
        path: &str,
        key: &str,
        name: &str,
        podman: bool,
    ) -> (r: EnsureBox)
        ensures
            final(self)@.valid(),
            final(self)@.guests == old(self)@.guests,
            if podman {
                &&& r matches EnsureBox::Start { report, root, preview } && report@ == (BoxReport {
                    slug: slug@,
                    state: BoxModel::Pulling,
                }) && root@ == paths::root_of(path@, ".dione-worktrees"@) && preview == old(
                    self)@.preview_for(key@)
                &&& final(self)@.next_preview == old(self)@.next_after(key@)
                &&& final(self)@.pending == Some(
                    PendingModel {
                        slug: slug@,
                        key: key@,
                        name: name@,
                        preview: old(self)@.preview_for(key@),
                    },
                )
            } else {
                &&& r matches EnsureBox::Refuse(report) && report@ == (BoxReport {
                    slug: slug@,
                    state: BoxModel::Error("podman not found"@),
                })
                &&& final(self)@ == old(self)@
            },
    {
        proof {
            use_type_invariant(&*self);
        }
        if !podman {
            return EnsureBox::Refuse(
                ContainerReport {
                    slug: slug.to_owned(),
                    state: ContainerState::Error("podman not found".to_owned()),
                },
            );
        }
        let ghost was = self@;
        let had: Option<u16> = match self.guests.get(key) {
            Some(g) => g.preview,
            None => None,
        };
        assert(had is Some ==> was.guests.dom().contains(key@) && was.guests[key@].preview == had);
        let mut next: u16 = self.next_preview;
        let preview: Option<u16> = match had {
            Some(p) => Some(p),
            None => if next <= 4199 {
                let p: u16 = next;
                next = next + 1;
                Some(p)
            } else {
                None
            },
        };
        assert(preview == was.preview_for(key@));
        let pending = Pending {
            slug: slug.to_owned(),
            key: key.to_owned(),
            name: name.to_owned(),
            preview,
        };
        let mut guests: StrMap<Guest> = StrMap::new();
        std::mem::swap(&mut guests, &mut self.guests);
        let ghost now = desk_model(guests@, next, Some(pending));
        proof {
            assert(now.guests =~= was.guests);
            assert forall|k: Seq<char>| #[trigger] now.guests.dom().contains(k) implies now.fits(
                k,
                now.guests[k].preview,
            ) by {
                assert(was.guests.dom().contains(k));
                assert(was.fits(k, was.guests[k].preview));
                if let Some(p) = now.guests[k].preview {
                    assert(now.taken(k, p) == was.taken(k, p));
                }
            }
            if let Some(p) = preview {
                assert(now.taken(key@, p) == was.taken(key@, p));
                if was.taken(key@, p) {
                    let q = choose|q: Seq<char>|
                        #[trigger] was.guests.dom().contains(q) && q != key@
                            && was.guests[q].preview == Some(p);
                    assert(was.fits(q, was.guests[q].preview));
                    if had is Some {
                        assert(was.fits(key@, was.guests[key@].preview));
                    }
                }
            }
            assert(now.fits(key@, preview));
            assert(now.valid());
        }
        *self = ContainerDesk { guests, next_preview: next, pending: Some(pending) };
        EnsureBox::Start {
            report: ContainerReport { slug: slug.to_owned(), state: ContainerState::Pulling },
            root: workspace_root(path),
            preview,
        }
    }

    /// Takes note of what became of the container that was being brought up:
    /// it is kept where it runs, and its state is reported.
    pub fn on_ensured(&mut self, state: ContainerState) -> (r: Option<ContainerReport>)
        ensures
            final(self)@.valid(),
            match old(self)@.pending {
                Some(w) => {
                    &&& r matches Some(p) && p@ == (BoxReport { slug: w.slug, state: state@ })
                    &&& final(self)@ == (DeskModel {
                        guests: if state is Running {
                            old(self)@.guests.insert(
                                w.key,
                                GuestModel { name: w.name, preview: w.preview },
                            )
                        } else {
                            old(self)@.guests
                        },
                        pending: None,
                        ..old(self)@
                    })
                },
                None => r is None && final(self)@ == old(self)@,
            },
    {
        proof {
            use_type_invariant(&*self);
        }
        let ghost was = self@;
        let mut desk = ContainerDesk::new();
        std::mem::swap(&mut desk, self);
        let ContainerDesk { guests: mut guests, next_preview, pending } = desk;
        match pending {
            Some(w) => {
                let report = ContainerReport { slug: w.slug.clone(), state };
                let running = matches!(report.state, ContainerState::Running);
                let ghost model = w@;
                if running {
                    guests.insert(w.key, Guest { name: w.name, preview: w.preview });
                }
                let ghost now = desk_model(guests@, next_preview, None);
                proof {
                    if running {
                        assert(now.guests =~= was.guests.insert(
                            model.key,
                            GuestModel { name: model.name, preview: model.preview },
                        ));
                    } else {
                        assert(now.guests =~= was.guests);
                    }
                    kept_valid(was, now, model, running);
                }
                *self = ContainerDesk { guests, next_preview, pending: None };
                Some(report)
            },
            None => {
                assert(desk_model(guests@, next_preview, None) == was);
                *self = ContainerDesk { guests, next_preview, pending: None };
                None
            },
        }
    }

    /// Forgets the container of a worktree that is being stopped.
    pub fn on_stop(&mut self, key: &str)
        ensures
            final(self)@.valid(),
            final(self)@ == (DeskModel { guests: old(self)@.guests.remove(key@), ..old(self)@ }),
    {
        proof {
            use_type_invariant(&*self);
        }
        let ghost was = self@;
        let mut desk = ContainerDesk::new();
        std::mem::swap(&mut desk, self);
        let ContainerDesk { guests: mut guests, next_preview, pending } = desk;
        guests.remove(key);
        let ghost now = desk_model(guests@, next_preview, pending);
        proof {
            assert(now.guests =~= was.guests.remove(key@));
            less_is_valid(was, now, key@);
        }
        *self = ContainerDesk { guests, next_preview, pending };
    }

    /// The report of a container that was stopped, or could not be.
    pub fn stop_report(slug: &str, outcome: Result<bool, Failure>) -> (p: ContainerReport)
        ensures
            p@ == (BoxReport {
                slug: slug@,
                state: match outcome {
                    Ok(true) => BoxModel::Stopped,
                    Ok(false) => BoxModel::Missing,
                    Err(f) => BoxModel::Error(f@),
                },
            }),
    {
        let state = match outcome {
            Ok(stopped) => if stopped {
                ContainerState::Stopped
            } else {
                ContainerState::Missing
            },
            Err(f) => ContainerState::Error(f.message),
        };
        ContainerReport { slug: slug.to_owned(), state }
    }

    /// The container in which to open a shell for a worktree.
    pub fn shell_in(&self, slug: &str, key: &str) -> (r: Result<String, String>)
        ensures
            match r {
                Ok(name) => self@.guests.dom().contains(key@) && name@ == self@.guests[key@].name,
                Err(why) => !self@.guests.dom().contains(key@) && why@ == "no container for "@
                    + slug@ + " (worktree "@ + key@ + ")"@,
            },
    {
        match self.guests.get(key) {
            Some(g) => Ok(g.name.clone()),
            None => {
                let mut why = "no container for ".to_owned();
                why.append(slug);
                why.append(" (worktree ");
                why.append(key);
                why.append(")");
                Err(why)
            },
        }
    }
}

proof fn kept_valid(was: DeskModel, now: DeskModel, w: PendingModel, running: bool)
    requires
        was.valid(),
        was.pending == Some(w),
        now.pending is None,
        now.next_preview == was.next_preview,
        now.guests == (if running {
            was.guests.insert(w.key, GuestModel { name: w.name, preview: w.preview })
        } else {
            was.guests
        }),
    ensures
        now.valid(),
{
    assert forall|k: Seq<char>| #[trigger] now.guests.dom().contains(k) implies now.fits(
        k,
        now.guests[k].preview,
    ) by {
        if running && k == w.key {
            assert(was.fits(w.key, w.preview));
        } else {
            assert(was.guests.dom().contains(k));
            assert(was.fits(k, was.guests[k].preview));
        }
        if let Some(p) = now.guests[k].preview {
            if now.taken(k, p) {
                let q = choose|q: Seq<char>|
                    #[trigger] now.guests.dom().contains(q) && q != k && now.guests[q].preview
                        == Some(p);
                if running && q == w.key {
                    assert(was.guests.dom().contains(k));
                    assert(was.taken(w.key, p));
                    assert(was.fits(w.key, w.preview));
                } else {
                    assert(was.guests.dom().contains(q));
                    assert(was.taken(k, p));
                }
            }
        }
    }
}

proof fn less_is_valid(was: DeskModel, now: DeskModel, key: Seq<char>)
    requires
        was.valid(),
        now.pending == was.pending,
        now.next_preview == was.next_preview,
        now.guests == was.guests.remove(key),
    ensures
        now.valid(),
{
    assert forall|k: Seq<char>, p: u16| #[trigger] now.taken(k, p) implies was.taken(k, p) by {
        let q = choose|q: Seq<char>|
            #[trigger] now.guests.dom().contains(q) && q != k && now.guests[q].preview == Some(p);
        assert(was.guests.dom().contains(q));
    }
    assert forall|k: Seq<char>| #[trigger] now.guests.dom().contains(k) implies now.fits(
        k,
        now.guests[k].preview,
    ) by {
        assert(was.guests.dom().contains(k));
        assert(was.fits(k, was.guests[k].preview));
    }
    if let Some(w) = now.pending {
        assert(was.fits(w.key, w.preview));
    }
}

/// Containers of different worktrees never have the same preview port.
pub proof fn preview_ports_are_distinct(d: DeskModel, a: Seq<char>, b: Seq<char>, p: u16)
    requires
        d.valid(),
        a != b,
        d.guests.dom().contains(a),
        d.guests.dom().contains(b),
        d.guests[a].preview == Some(p),
    ensures
        d.guests[b].preview != Some(p),
        4100 <= p <= 4199,
{
    assert(d.fits(a, d.guests[a].preview));
    assert(d.guests.dom().contains(b));
}

/// The name of a worktree's container, by the path it is known by.
pub fn container_name_for(key: &str) -> (n: String)
    ensures
        n@ == "ade"@ + sbx::dashed(key@),
{
    let mut n = "ade".to_owned();
    n.append(sbx::with_dashes(key).as_str());
    n
}

/// A worktree keeps the port it has; a new one gets the next that is free, up
/// to the last, and then none. Only a new port moves the next one on.
pub proof fn ports_are_kept_or_next(d: DeskModel, key: Seq<char>, p: u16)
    requires
        d.valid(),
    ensures
        d.guests.dom().contains(key) && d.guests[key].preview == Some(p) ==> d.preview_for(key)
            == Some(p) && d.next_after(key) == d.next_preview,
        !d.guests.dom().contains(key) && d.next_preview < 4200 ==> d.preview_for(key) == Some(
            d.next_preview,
        ) && d.next_after(key) == d.next_preview + 1,
        !d.guests.dom().contains(key) && d.next_preview == 4200 ==> d.preview_for(key) is None
            && d.next_after(key) == 4200,
        d.preview_for(key) matches Some(q) ==> 4100 <= q <= 4199 && forall|k: Seq<char>|
            k != key && #[trigger] d.guests.dom().contains(k) ==> d.guests[k].preview != Some(q),
{
    if let Some(q) = d.preview_for(key) {
        assert forall|k: Seq<char>|
            k != key && #[trigger] d.guests.dom().contains(k) implies d.guests[k].preview != Some(
            q,
        ) by {
            assert(d.fits(k, d.guests[k].preview));
            if d.guests.dom().contains(key) {
                assert(d.fits(key, d.guests[key].preview));
            }
        }
    }
}

} // verus!
