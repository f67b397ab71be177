//! The desk of the machine worker: commands in, reports out.
use crate::config::{StateModel, VmConfig, VmState};
use crate::keys::EphemeralKey;
use crate::outside::Failure;
use crate::paths;
use crate::sorted_map::StrMap;
use crate::text;
use std::collections::VecDeque;
use vstd::prelude::*;
use vstd::string::*;

verus! {

/// What the worker is asked to do.
#[derive(Debug, PartialEq, Eq)]
pub enum VmCmd {
    Ensure { slug: String, path: String },
    Stop { slug: String, path: String },
}

/// What the worker reports.
#[derive(Debug, Clone, PartialEq, Eq)]
pub struct VmReport {
    pub slug: String,
    pub state: VmState,
}

/// What a [`VmReport`] holds.
pub struct ReportModel {
    pub slug: Seq<char>,
    pub state: StateModel,
}

impl View for VmReport {
    type V = ReportModel;

    open spec fn view(&self) -> ReportModel {
        ReportModel { slug: self.slug@, state: self.state@ }
    }
}

/// The two queues between the owner of the worker and the worker.
#[derive(Debug)]
pub struct VmThread {
    /// Commands that the worker has not taken.
    pub commands: VecDeque<VmCmd>,
    /// Reports that nobody has read.
    pub reports: VecDeque<VmReport>,
}

impl VmThread {
    /// Two empty queues.
    pub fn new() -> (t: VmThread)
        ensures
            t.commands@ == Seq::<VmCmd>::empty(),
            t.reports@ == Seq::<VmReport>::empty(),
    {
        VmThread { commands: VecDeque::new(), reports: VecDeque::new() }
    }

    /// Asks for the machine of a checkout.
    pub fn ensure(&mut self, slug: String, path: String)
        ensures
            final(self).commands@ == old(self).commands@.push(VmCmd::Ensure { slug, path }),
            final(self).reports == old(self).reports,
    {
        self.commands.push_back(VmCmd::Ensure { slug, path });
    }

    /// Asks to stop the machine of a checkout.
    pub fn stop(&mut self, slug: String, path: String)
        ensures
            final(self).commands@ == old(self).commands@.push(VmCmd::Stop { slug, path }),
            final(self).reports == old(self).reports,
    {
        self.commands.push_back(VmCmd::Stop { slug, path });
    }

    /// The oldest command that the worker has not taken.
    pub fn next_command(&mut self) -> (r: Option<VmCmd>)
        ensures
            final(self).reports == old(self).reports,
            match r {
                Some(c) => old(self).commands@.len() > 0 && c == old(self).commands@[0] && final(
                    self).commands@ == old(self).commands@.drop_first(),
                None => old(self).commands@.len() == 0 && final(self).commands@ == old(
                    self).commands@,
            },
    {
        let r = self.commands.pop_front();
        proof {
            if old(self).commands@.len() > 0 {
                assert(self.commands@ =~= old(self).commands@.drop_first());
            }
        }
        r
    }

    /// Reports something.
    pub fn post(&mut self, report: VmReport)
        ensures
            final(self).reports@ == old(self).reports@.push(report),
            final(self).commands == old(self).commands,
    {
        self.reports.push_back(report);
    }

    /// All reports that nobody has read, oldest first.
    pub fn drain(&mut self) -> (out: Vec<VmReport>)
        ensures
            out@ == old(self).reports@,
            final(self).reports@ == Seq::<VmReport>::empty(),
            final(self).commands == old(self).commands,
    {
        let ghost all = self.reports@;
        let mut out: Vec<VmReport> = Vec::new();
        while self.reports.len() > 0
            invariant
                out@ + self.reports@ == all,
                self.commands == old(self).commands,
            decreases self.reports@.len(),
        {
            let ghost was = self.reports@;
            let ghost so_far = out@;
            let r = self.reports.pop_front().unwrap();
            out.push(r);
            assert(self.reports@ =~= was.drop_first());
            assert(so_far + was =~= out@ + self.reports@);
        }
        assert(self.reports@ =~= Seq::empty());
        assert(out@ + self.reports@ =~= out@);
        out
    }
}

/// The workspace of a checkout: the directory that holds the worktrees that
/// it lies in, or the checkout itself.
pub fn workspace_root(path: &str) -> (r: String)
    ensures
        r@ == paths::root_of(path@, ".ade-worktrees"@),
{
    paths::root_above(path, ".ade-worktrees")
}

/// What the worker does next about a command.
#[derive(Debug, PartialEq, Eq)]
pub enum VmWork {
    /// Make a key pair, then bring up the machine of `root`.
    MakeKey { root: String },
    /// Stop the machine of `root`.
    Stop { root: String },
}

/// What the worker keeps: keys and names by workspace.
pub struct VmDesk {
    keys: StrMap<EphemeralKey>,
    slugs: StrMap<String>,
}

impl VmDesk {
    /// The workspaces that have a key.
    pub closed spec fn keyed(&self) -> Map<Seq<char>, EphemeralKey> {
        self.keys@
    }

    /// The name that each workspace was last asked for under.
    pub closed spec fn names(&self) -> Map<Seq<char>, Seq<char>> {
        self.slugs@.map_values(|s: String| s@)
    }

    /// Nothing is kept.
    pub fn new() -> (d: VmDesk)
        ensures
            d.keyed() == Map::<Seq<char>, EphemeralKey>::empty(),
            d.names() == Map::<Seq<char>, Seq<char>>::empty(),
    {
        let d = VmDesk { keys: StrMap::new(), slugs: StrMap::new() };
        assert(d.names() =~= Map::empty());
        d
    }

    /// Begins a command: what to do, and what to report at once. A machine
    /// that is asked for is reported as booting before anything is done.
    pub fn begin(&mut self, cmd: &VmCmd) -> (r: (VmWork, Option<VmReport>))
        ensures
            final(self).keyed() == old(self).keyed(),
            match cmd {
                VmCmd::Ensure { slug, path } => {
                    let root = paths::root_of(path@, ".ade-worktrees"@);
                    &&& r.0 matches VmWork::MakeKey { root: w } && w@ == root
                    &&& r.1 matches Some(p) && p@ == (ReportModel {
                        slug: slug@,
                        state: StateModel::Booting,
                    })
                    &&& final(self).names() == old(self).names().insert(root, slug@)
                },
                VmCmd::Stop { slug, path } => {
                    &&& r.0 matches VmWork::Stop { root: w } && w@ == paths::root_of(
                        path@,
                        ".ade-worktrees"@,
                    )
                    &&& r.1 is None
                    &&& final(self).names() == old(self).names()
                },
            },
    {
        match cmd {
            VmCmd::Ensure { slug, path } => {
                let root = workspace_root(path.as_str());
                self.slugs.insert(root.clone(), slug.clone());
                assert(self.names() =~= old(self).names().insert(root@, slug@));
                (
                    VmWork::MakeKey { root },
                    Some(VmReport { slug: slug.clone(), state: VmState::Booting }),
                )
            },
            VmCmd::Stop { slug, path } => (VmWork::Stop { root: workspace_root(path.as_str()) }, None),
        }
    }

    /// Takes note of the key for a workspace: the configuration to boot, and
    /// the key that it replaces.
    pub fn on_key(&mut self, root: &str, key: EphemeralKey) -> (r: (VmConfig, Option<EphemeralKey>))
        ensures
            r.0.mount_repo@ == root@,
            r.0.ssh_pubkey@ == key.public_half(),
            r.0.vcpu == 2,
            r.0.mem_mb == 2048,
            final(self).keyed() == old(self).keyed().insert(root@, key),
            final(self).names() == old(self).names(),
            match r.1 {
                Some(k) => old(self).keyed().dom().contains(root@) && k == old(self).keyed()[root@],
                None => !old(self).keyed().dom().contains(root@),
            },
    {
        let cfg = VmConfig::for_repo(root, key.pubkey_openssh());
        let was = self.keys.insert(root.to_owned(), key);
        (cfg, was)
    }

    /// The report of a key that could not be made.
    pub fn on_key_failed(slug: &str, why: &str) -> (p: VmReport)
        ensures
            p@ == (ReportModel { slug: slug@, state: StateModel::Error("keygen failed: "@ + why@) }),
    {
        let mut text = "keygen failed: ".to_owned();
        text.append(why);
        VmReport { slug: slug.to_owned(), state: VmState::Error(text) }
    }

    /// The report of a machine that was brought up, in the state that it now
    /// has, or could not be.
    pub fn on_ensured(slug: &str, outcome: Result<VmState, Failure>) -> (p: VmReport)
        ensures
            p@ == (ReportModel {
                slug: slug@,
                state: match outcome {
                    Ok(s) => s@,
                    Err(f) => StateModel::Error(f@),
                },
            }),
    {
        let state = match outcome {
            Ok(s) => s,
            Err(f) => VmState::Error(f.message),
        };
        VmReport { slug: slug.to_owned(), state }
    }

    /// Takes note of a machine that was stopped, or could not be: the report,
    /// and the key that is no longer needed.
    pub fn on_stopped(&mut self, root: &str, slug: &str, outcome: Result<bool, Failure>) -> (r: (
        VmReport,
        Option<EphemeralKey>,
    ))
        ensures
            r.0@ == (ReportModel {
                slug: slug@,
                state: match outcome {
                    Ok(true) => StateModel::Stopped,
                    Ok(false) => StateModel::Missing,
                    Err(f) => StateModel::Error(f@),
                },
            }),
            match r.1 {
                Some(k) => old(self).keyed().dom().contains(root@) && k == old(self).keyed()[root@],
                None => !old(self).keyed().dom().contains(root@),
            },
            final(self).keyed() == old(self).keyed().remove(root@),
            final(self).names() == old(self).names().remove(root@),
    {
        let key = self.keys.remove(root);
        self.slugs.remove(root);
        assert(self.names() =~= old(self).names().remove(root@));
        let state = match outcome {
            Ok(stopped) => if stopped {
                VmState::Stopped
            } else {
                VmState::Missing
            },
            Err(f) => VmState::Error(f.message),
        };
        (VmReport { slug: slug.to_owned(), state }, key)
    }
}

} // verus!
