use vstd::prelude::*;

use crate::listing::{find_by_name, lookup_answer, names_some, visible, HostEntry};
use crate::name::{fid_leaf, numbered_leaf};
use crate::ops::{
    check_delete, check_dir, create_plan, create_steps, delete_plan, delete_steps, moves_into_itself,
    plan_view, rename_plan, rename_steps, HostOp,
};
use crate::types::NfsError;

verus! {

/// Why an operation failed: an error of the taxonomy, or a host failure
/// (with the host's words) that the client should retry.
#[derive(Clone, Debug)]
pub enum Failure {
    Nfs(NfsError),
    Host(String),
}

/// What the driver of an operation reports back after doing a step.
pub enum Event {
    /// A directory the operation works in: whether its identifier resolved,
    /// whether it is a directory, its path, and the identifiers from the root
    /// down to it.
    Resolved { found: bool, is_dir: bool, dir: String, chain: Vec<u64> },
    /// What the object to delete is: a directory or not, and if so whether
    /// it is empty.
    Inspected { is_dir: bool, empty: bool },
    /// Whether the claim on the name succeeded.
    Claimed(bool),
    /// The claim was given up.
    Released,
    /// The listing of the directory.
    Listed(Vec<HostEntry>),
    /// A fresh identifier from the counter.
    Allocated(u64),
    /// How running the host operations went.
    Ran(Result<(), String>),
    /// How setting the requested attributes went.
    AttrsSet(Result<(), Failure>),
    /// The parent was recorded in the cache.
    Recorded,
}

/// The next thing an operation asks its driver to do.
pub enum Step {
    /// Claim `name` in `dir`; answer `Claimed`.
    Reserve { dir: String, name: String },
    /// Give up the claim on `name` in `dir`; answer `Released`.
    Release { dir: String, name: String },
    /// List `dir`; answer `Listed`.
    List { dir: String },
    /// Take an identifier from the counter; answer `Allocated`.
    Allocate,
    /// Run these host operations in order, stopping at the first failure;
    /// answer `Ran`.
    Run { ops: Vec<HostOp> },
    /// Set the requested attributes on the object at `path`; answer
    /// `AttrsSet`.
    SetAttrs { path: String },
    /// Resolve `fid` as a directory; answer `Resolved`.
    Resolve { fid: u64 },
    /// Tell what the object at `path` is; answer `Inspected`.
    Inspect { path: String },
    /// Holding the cache's write lock, forget the parent of `fid`, then run
    /// `ops`; answer `Ran`.
    Forget { fid: u64, ops: Vec<HostOp> },
    /// Holding the cache's write lock, run `ops`, and when they succeed
    /// record `to` in place of `from` as the parent of `fid`; answer `Ran`.
    Move { fid: u64, from: u64, to: u64, ops: Vec<HostOp> },
    /// Record `parent` as the parent of `fid` in the cache; answer
    /// `Recorded`.
    Record { fid: u64, parent: u64 },
    /// The operation is over, with this outcome.
    Finish(Result<u64, Failure>),
}

/// Where a CREATE or MKDIR stands.
pub enum CreatePhase {
    AwaitParent,
    AwaitClaim { dir: String },
    AwaitListing { dir: String },
    AwaitFid { dir: String },
    AwaitPlan { dir: String, fid: u64 },
    AwaitAttrs { dir: String, fid: u64 },
    AwaitRelease { outcome: Result<u64, Failure> },
    AwaitRecord { fid: u64 },
    Over,
}

/// A CREATE (of a file) or MKDIR (of a directory) of `name` in the directory
/// `parent`. The name is claimed before the directory is searched for it,
/// and the claim is given up before the operation finishes, whatever the
/// outcome.
pub struct CreateSession {
    pub parent: u64,
    pub name: String,
    pub is_file: bool,
    pub phase: CreatePhase,
}

impl CreatePhase {
    /// The session holds a claim on its name and has not yet asked to give
    /// it up.
    pub open spec fn holding(&self) -> bool {
        match self {
            CreatePhase::AwaitListing { .. } => true,
            CreatePhase::AwaitFid { .. } => true,
            CreatePhase::AwaitPlan { .. } => true,
            CreatePhase::AwaitAttrs { .. } => true,
            _ => false,
        }
    }
}

impl CreateSession {
    /// Starts the operation; the first step is to resolve `parent`.
    pub fn new(parent: u64, name: String, is_file: bool) -> (r: CreateSession)
        ensures
            r.parent == parent,
            r.name == name,
            r.is_file == is_file,
            r.phase is AwaitParent,
    {
        CreateSession { parent, name, is_file, phase: CreatePhase::AwaitParent }
    }

    /// Whether `e` answers the step this session asked for last.
    pub fn expects(&self, e: &Event) -> (r: bool)
        ensures
            r == self.accepts(e),
    {
        match (&self.phase, e) {
            (CreatePhase::AwaitParent, Event::Resolved { .. }) => true,
            (CreatePhase::AwaitClaim { .. }, Event::Claimed(_)) => true,
            (CreatePhase::AwaitListing { .. }, Event::Listed(_)) => true,
            (CreatePhase::AwaitFid { .. }, Event::Allocated(_)) => true,
            (CreatePhase::AwaitPlan { .. }, Event::Ran(_)) => true,
            (CreatePhase::AwaitAttrs { .. }, Event::AttrsSet(_)) => true,
            (CreatePhase::AwaitRelease { .. }, Event::Released) => true,
            (CreatePhase::AwaitRecord { .. }, Event::Recorded) => true,
            _ => false,
        }
    }

    pub open spec fn accepts(&self, e: &Event) -> bool {
        match self.phase {
            CreatePhase::AwaitParent => e is Resolved,
            CreatePhase::AwaitClaim { .. } => e is Claimed,
            CreatePhase::AwaitListing { .. } => e is Listed,
            CreatePhase::AwaitFid { .. } => e is Allocated,
            CreatePhase::AwaitPlan { .. } => e is Ran,
            CreatePhase::AwaitAttrs { .. } => e is AttrsSet,
            CreatePhase::AwaitRelease { .. } => e is Released,
            CreatePhase::AwaitRecord { .. } => e is Recorded,
            CreatePhase::Over => false,
        }
    }

    /// Gives up after the host failed at the last step: the claim, if one is
    /// held, is given up first.
    pub fn abort(&mut self, msg: String) -> (r: Step)
        requires
            !(old(self).phase is AwaitRelease),
            !(old(self).phase is Over),
        ensures
            final(self).parent == old(self).parent,
            final(self).name == old(self).name,
            final(self).is_file == old(self).is_file,
            old(self).phase.holding() ==> (r matches Step::Release { name: n, .. } && n@ == old(
                self,
            ).name@ && final(self).phase == CreatePhase::AwaitRelease {
                outcome: Err(Failure::Host(msg)),
            }),
            !old(self).phase.holding() ==> r == Step::Finish(Err(Failure::Host(msg)))
                && final(self).phase is Over,
    {
        let mut phase = CreatePhase::Over;
        std::mem::swap(&mut phase, &mut self.phase);
        let dir = match phase {
            CreatePhase::AwaitListing { dir } => dir,
            CreatePhase::AwaitFid { dir } => dir,
            CreatePhase::AwaitPlan { dir, .. } => dir,
            CreatePhase::AwaitAttrs { dir, .. } => dir,
            _ => {
                return Step::Finish(Err(Failure::Host(msg)));
            },
        };
        self.phase = CreatePhase::AwaitRelease { outcome: Err(Failure::Host(msg)) };
        Step::Release { dir, name: self.name.clone() }
    }

    /// Takes the answer to the last step and says what to do next.
    pub fn next(&mut self, e: Event) -> (r: Step)
        requires
            old(self).accepts(&e),
        ensures
            final(self).parent == old(self).parent,
            final(self).name == old(self).name,
            final(self).is_file == old(self).is_file,
            // A claim is asked for only when none is held; once held, it is
            // kept until the session asks to give it up, and the session
            // finishes only when it holds none.
            r is Reserve ==> !old(self).phase.holding() && final(self).phase is AwaitClaim,
            old(self).phase.holding() ==> final(self).phase.holding() || (r is Release
                && final(self).phase is AwaitRelease),
            r is Finish ==> final(self).phase is Over && !old(self).phase.holding(),
            // Each answer leads to exactly one next step and phase.
            (match (old(self).phase, e) {
                // The directory must resolve and be a directory.
                (CreatePhase::AwaitParent, Event::Resolved { found, is_dir, dir, .. }) => if !found {
                    r == Step::Finish(Err(Failure::Nfs(NfsError::Stale))) && final(self).phase is Over
                } else if !is_dir {
                    r == Step::Finish(Err(Failure::Nfs(NfsError::Notdir))) && final(self).phase is Over
                } else {
                    r == Step::Reserve { dir, name: old(self).name } && final(self).phase
                        == CreatePhase::AwaitClaim { dir }
                },
                // A name claimed by another operation exists already.
                (CreatePhase::AwaitClaim { dir }, Event::Claimed(ok)) => if !ok {
                    r == Step::Finish(Err(Failure::Nfs(NfsError::Exist))) && final(self).phase is Over
                } else {
                    r == Step::List { dir } && final(self).phase == CreatePhase::AwaitListing { dir }
                },
                // So does a name visible in the directory.
                (CreatePhase::AwaitListing { dir }, Event::Listed(l)) => if names_some(
                    l@,
                    old(self).name@,
                ) {
                    r == Step::Release { dir, name: old(self).name } && final(self).phase
                        == CreatePhase::AwaitRelease { outcome: Err(Failure::Nfs(NfsError::Exist)) }
                } else {
                    r == Step::Allocate && final(self).phase == CreatePhase::AwaitFid { dir }
                },
                // The new object is made by the create plan, in the directory.
                (CreatePhase::AwaitFid { dir }, Event::Allocated(fid)) => (r matches Step::Run {
                    ops,
                } && plan_view(ops@) == create_steps(dir@, fid, old(self).name@, old(self).is_file))
                    && final(self).phase == CreatePhase::AwaitPlan { dir, fid },
                (CreatePhase::AwaitPlan { dir, fid }, Event::Ran(res)) => match res {
                    Ok(()) => (r matches Step::SetAttrs { path } && path@ == dir@ + seq!['/']
                        + numbered_leaf(fid)) && final(self).phase == CreatePhase::AwaitAttrs {
                        dir,
                        fid,
                    },
                    Err(msg) => r == Step::Release { dir, name: old(self).name } && final(self).phase == CreatePhase::AwaitRelease { outcome: Err(Failure::Host(msg)) },
                },
                (CreatePhase::AwaitAttrs { dir, fid }, Event::AttrsSet(res)) => r == Step::Release {
                    dir,
                    name: old(self).name,
                } && final(self).phase == CreatePhase::AwaitRelease {
                    outcome: match res {
                        Ok(()) => Ok(fid),
                        Err(f) => Err(f),
                    },
                },
                // Only a success records the new object's parent.
                (CreatePhase::AwaitRelease { outcome }, Event::Released) => match outcome {
                    Ok(fid) => r == Step::Record { fid, parent: old(self).parent } && final(self).phase == CreatePhase::AwaitRecord { fid },
                    Err(f) => r == Step::Finish(Err(f)) && final(self).phase is Over,
                },
                (CreatePhase::AwaitRecord { fid }, Event::Recorded) => r == Step::Finish(
                    Ok::<u64, Failure>(fid),
                ) && final(self).phase is Over,
                _ => true,
            }),
    {
        let mut phase = CreatePhase::Over;
        std::mem::swap(&mut phase, &mut self.phase);
        match (phase, e) {
            (CreatePhase::AwaitParent, Event::Resolved { found, is_dir, dir, .. }) => {
                if !found {
                    Step::Finish(Err(Failure::Nfs(NfsError::Stale)))
                } else if !is_dir {
                    Step::Finish(Err(Failure::Nfs(NfsError::Notdir)))
                } else {
                    let d = dir.clone();
                    self.phase = CreatePhase::AwaitClaim { dir };
                    Step::Reserve { dir: d, name: self.name.clone() }
                }
            },
            (CreatePhase::AwaitClaim { dir }, Event::Claimed(ok)) => {
                if !ok {
                    Step::Finish(Err(Failure::Nfs(NfsError::Exist)))
                } else {
                    let d = dir.clone();
                    self.phase = CreatePhase::AwaitListing { dir };
                    Step::List { dir: d }
                }
            },
            (CreatePhase::AwaitListing { dir }, Event::Listed(l)) => {
                match find_by_name(&l, self.name.as_str()) {
                    Some(found) => {
                        assert(lookup_answer(l@, self.name@, Some(found)));
                        let d = dir.clone();
                        self.phase = CreatePhase::AwaitRelease {
                            outcome: Err(Failure::Nfs(NfsError::Exist)),
                        };
                        Step::Release { dir: d, name: self.name.clone() }
                    },
                    None => {
                        assert(forall|f: u64| !lookup_answer(l@, self.name@, Some(f)));
                        self.phase = CreatePhase::AwaitFid { dir };
                        Step::Allocate
                    },
                }
            },
            (CreatePhase::AwaitFid { dir }, Event::Allocated(fid)) => {
                let ops = create_plan(dir.as_str(), fid, self.name.as_str(), self.is_file);
                self.phase = CreatePhase::AwaitPlan { dir, fid };
                Step::Run { ops }
            },
            (CreatePhase::AwaitPlan { dir, fid }, Event::Ran(res)) => {
                match res {
                    Ok(()) => {
                        let mut path = dir.clone();
                        proof {
                            reveal_strlit("/");
                        }
                        path.append("/");
                        let leaf = fid_leaf(fid);
                        path.append(leaf.as_str());
                        self.phase = CreatePhase::AwaitAttrs { dir, fid };
                        Step::SetAttrs { path }
                    },
                    Err(msg) => {
                        self.phase = CreatePhase::AwaitRelease { outcome: Err(Failure::Host(msg)) };
                        Step::Release { dir, name: self.name.clone() }
                    },
                }
            },
            (CreatePhase::AwaitAttrs { dir, fid }, Event::AttrsSet(res)) => {
                let outcome = match res {
                    Ok(()) => Ok(fid),
                    Err(f) => Err(f),
                };
                self.phase = CreatePhase::AwaitRelease { outcome };
                Step::Release { dir, name: self.name.clone() }
            },
            (CreatePhase::AwaitRelease { outcome }, Event::Released) => {
                match outcome {
                    Ok(fid) => {
                        self.phase = CreatePhase::AwaitRecord { fid };
                        Step::Record { fid, parent: self.parent }
                    },
                    Err(f) => Step::Finish(Err(f)),
                }
            },
            (CreatePhase::AwaitRecord { fid }, Event::Recorded) => Step::Finish(Ok(fid)),
            (_, _) => Step::Finish(Err(Failure::Nfs(NfsError::Stale))),
        }
    }
}

/// Where a REMOVE or RMDIR stands.
pub enum DeletePhase {
    AwaitParent,
    AwaitListing { dir: String },
    AwaitInspect { dir: String, fid: u64 },
    AwaitFirst { fid: u64, rest: Vec<HostOp> },
    AwaitRest { fid: u64 },
    Over,
}

/// A REMOVE (of a file, `want_dir` false) or RMDIR (of an empty directory,
/// `want_dir` true) of `name` in the directory `parent`. The numbered file
/// goes first; the cache forgets the object before its named file goes.
pub struct DeleteSession {
    pub parent: u64,
    pub name: String,
    pub want_dir: bool,
    pub phase: DeletePhase,
}

impl DeleteSession {
    /// Starts the operation; the first step is to resolve `parent`.
    pub fn new(parent: u64, name: String, want_dir: bool) -> (r: DeleteSession)
        ensures
            r.parent == parent,
            r.name == name,
            r.want_dir == want_dir,
            r.phase is AwaitParent,
    {
        DeleteSession { parent, name, want_dir, phase: DeletePhase::AwaitParent }
    }

    pub open spec fn accepts(&self, e: &Event) -> bool {
        match self.phase {
            DeletePhase::AwaitParent => e is Resolved,
            DeletePhase::AwaitListing { .. } => e is Listed,
            DeletePhase::AwaitInspect { .. } => e is Inspected,
            DeletePhase::AwaitFirst { .. } => e is Ran,
            DeletePhase::AwaitRest { .. } => e is Ran,
            DeletePhase::Over => false,
        }
    }

    /// Whether `e` answers the step this session asked for last.
    pub fn expects(&self, e: &Event) -> (r: bool)
        ensures
            r == self.accepts(e),
    {
        match (&self.phase, e) {
            (DeletePhase::AwaitParent, Event::Resolved { .. }) => true,
            (DeletePhase::AwaitListing { .. }, Event::Listed(_)) => true,
            (DeletePhase::AwaitInspect { .. }, Event::Inspected { .. }) => true,
            (DeletePhase::AwaitFirst { .. }, Event::Ran(_)) => true,
            (DeletePhase::AwaitRest { .. }, Event::Ran(_)) => true,
            _ => false,
        }
    }

    /// Gives up after the host failed at the last step.
    pub fn abort(&mut self, msg: String) -> (r: Step)
        ensures
            final(self).parent == old(self).parent,
            final(self).name == old(self).name,
            final(self).want_dir == old(self).want_dir,
            r == Step::Finish(Err(Failure::Host(msg))),
            final(self).phase is Over,
    {
        self.phase = DeletePhase::Over;
        Step::Finish(Err(Failure::Host(msg)))
    }

    /// Takes the answer to the last step and says what to do next.
    pub fn next(&mut self, e: Event) -> (r: Step)
        requires
            old(self).accepts(&e),
        ensures
            final(self).parent == old(self).parent,
            final(self).name == old(self).name,
            final(self).want_dir == old(self).want_dir,
            r is Finish <==> final(self).phase is Over,
            // Each answer leads to exactly one next step and phase.
            (match (old(self).phase, e) {
                // The directory must resolve and be a directory.
                (DeletePhase::AwaitParent, Event::Resolved { found, is_dir, dir, .. }) => if !found {
                    r == Step::Finish(Err(Failure::Nfs(NfsError::Stale)))
                } else if !is_dir {
                    r == Step::Finish(Err(Failure::Nfs(NfsError::Notdir)))
                } else {
                    r == Step::List { dir } && final(self).phase == DeletePhase::AwaitListing { dir }
                },
                // The name must name a visible object.
                (DeletePhase::AwaitListing { dir }, Event::Listed(l)) => if !names_some(
                    l@,
                    old(self).name@,
                ) {
                    r == Step::Finish(Err(Failure::Nfs(NfsError::Noent)))
                } else {
                    (r matches Step::Inspect { path } && (final(self).phase matches DeletePhase::AwaitInspect {
                        dir: d,
                        fid,
                    } && d == dir && visible(l@, fid, old(self).name@) && path@ == dir@ + seq!['/']
                        + numbered_leaf(fid)))
                },
                // A directory is no file, a file no directory, and only an
                // empty directory goes; the plan then runs its first step
                // alone.
                (DeletePhase::AwaitInspect { dir, fid }, Event::Inspected { is_dir, empty }) => {
                    if is_dir && !old(self).want_dir {
                        r == Step::Finish(Err(Failure::Nfs(NfsError::Isdir)))
                    } else if !is_dir && old(self).want_dir {
                        r == Step::Finish(Err(Failure::Nfs(NfsError::Notdir)))
                    } else if old(self).want_dir && !empty {
                        r == Step::Finish(Err(Failure::Nfs(NfsError::Notempty)))
                    } else {
                        (r matches Step::Run { ops } && (final(self).phase matches DeletePhase::AwaitFirst {
                            fid: f,
                            rest,
                        } && f == fid && ops@.len() == 1 && plan_view(ops@ + rest@) == delete_steps(
                            dir@,
                            fid,
                            old(self).name@,
                            is_dir,
                        )))
                    }
                },
                // The cache forgets the object before its named file goes.
                (DeletePhase::AwaitFirst { fid, rest }, Event::Ran(res)) => match res {
                    Ok(()) => r == Step::Forget { fid, ops: rest } && final(self).phase
                        == DeletePhase::AwaitRest { fid },
                    Err(msg) => r == Step::Finish(Err(Failure::Host(msg))),
                },
                (DeletePhase::AwaitRest { fid }, Event::Ran(res)) => match res {
                    Ok(()) => r == Step::Finish(Ok::<u64, Failure>(fid)),
                    Err(msg) => r == Step::Finish(Err(Failure::Host(msg))),
                },
                _ => true,
            }),
    {
        let mut phase = DeletePhase::Over;
        std::mem::swap(&mut phase, &mut self.phase);
        match (phase, e) {
            (DeletePhase::AwaitParent, Event::Resolved { found, is_dir, dir, .. }) => {
                match check_dir(found, is_dir) {
                    Err(err) => Step::Finish(Err(Failure::Nfs(err))),
                    Ok(()) => {
                        let d = dir.clone();
                        self.phase = DeletePhase::AwaitListing { dir };
                        Step::List { dir: d }
                    },
                }
            },
            (DeletePhase::AwaitListing { dir }, Event::Listed(l)) => {
                match find_by_name(&l, self.name.as_str()) {
                    None => Step::Finish(Err(Failure::Nfs(NfsError::Noent))),
                    Some(fid) => {
                        let path = child_path(&dir, fid);
                        self.phase = DeletePhase::AwaitInspect { dir, fid };
                        Step::Inspect { path }
                    },
                }
            },
            (DeletePhase::AwaitInspect { dir, fid }, Event::Inspected { is_dir, empty }) => {
                match check_delete(Some(fid), is_dir, self.want_dir, empty) {
                    Err(err) => Step::Finish(Err(Failure::Nfs(err))),
                    Ok(_) => {
                        let mut first = delete_plan(dir.as_str(), fid, self.name.as_str(), is_dir);
                        let ghost whole = first@;
                        assert(plan_view(whole).len() == 4);
                        assert(whole.len() == 4);
                        let rest = first.split_off(1);
                        assert(first@ + rest@ =~= whole);
                        self.phase = DeletePhase::AwaitFirst { fid, rest };
                        Step::Run { ops: first }
                    },
                }
            },
            (DeletePhase::AwaitFirst { fid, rest }, Event::Ran(res)) => {
                match res {
                    Ok(()) => {
                        self.phase = DeletePhase::AwaitRest { fid };
                        Step::Forget { fid, ops: rest }
                    },
                    Err(msg) => Step::Finish(Err(Failure::Host(msg))),
                }
            },
            (DeletePhase::AwaitRest { fid }, Event::Ran(res)) => {
                match res {
                    Ok(()) => Step::Finish(Ok(fid)),
                    Err(msg) => Step::Finish(Err(Failure::Host(msg))),
                }
            },
            (_, _) => Step::Finish(Err(Failure::Nfs(NfsError::Stale))),
        }
    }
}

/// Where a RENAME stands.
pub enum RenamePhase {
    AwaitOldParent,
    AwaitNewParent { odir: String },
    AwaitOldListing { odir: String, ndir: String, nchain: Vec<u64> },
    AwaitClaim { odir: String, ndir: String, nchain: Vec<u64>, fid: u64 },
    AwaitNewListing { odir: String, ndir: String, nchain: Vec<u64>, fid: u64 },
    AwaitNamed { ndir: String, fid: u64, mv: Vec<HostOp>, tail: Vec<HostOp> },
    AwaitMove { ndir: String, fid: u64, tail: Vec<HostOp> },
    AwaitReleaseOk { fid: u64, tail: Vec<HostOp> },
    AwaitReleaseErr { failure: Failure },
    AwaitCleanup { fid: u64 },
    Over,
}

impl RenamePhase {
    /// The session has asked to give up its claim.
    pub open spec fn releasing(&self) -> bool {
        self is AwaitReleaseOk || self is AwaitReleaseErr
    }

    /// The session holds a claim on the new name and has not yet asked to
    /// give it up.
    pub open spec fn holding(&self) -> bool {
        match self {
            RenamePhase::AwaitNewListing { .. } => true,
            RenamePhase::AwaitNamed { .. } => true,
            RenamePhase::AwaitMove { .. } => true,
            _ => false,
        }
    }
}

/// A RENAME of `old_name` in `old_parent` to `new_name` in `new_parent`. The
/// new name is claimed before the new directory is searched for it, and
/// never taken over; a directory is never moved into itself. The new named
/// file comes first, then the numbered file moves, then the old named file
/// goes.
pub struct RenameSession {
    pub old_parent: u64,
    pub old_name: String,
    pub new_parent: u64,
    pub new_name: String,
    pub phase: RenamePhase,
}

impl RenameSession {
    /// Starts the operation; the first step is to resolve `old_parent`.
    pub fn new(old_parent: u64, old_name: String, new_parent: u64, new_name: String) -> (r:
        RenameSession)
        ensures
            r.old_parent == old_parent,
            r.old_name == old_name,
            r.new_parent == new_parent,
            r.new_name == new_name,
            r.phase is AwaitOldParent,
    {
        RenameSession { old_parent, old_name, new_parent, new_name, phase: RenamePhase::AwaitOldParent }
    }

    pub open spec fn accepts(&self, e: &Event) -> bool {
        match self.phase {
            RenamePhase::AwaitOldParent => e is Resolved,
            RenamePhase::AwaitNewParent { .. } => e is Resolved,
            RenamePhase::AwaitOldListing { .. } => e is Listed,
            RenamePhase::AwaitClaim { .. } => e is Claimed,
            RenamePhase::AwaitNewListing { .. } => e is Listed,
            RenamePhase::AwaitNamed { .. } => e is Ran,
            RenamePhase::AwaitMove { .. } => e is Ran,
            RenamePhase::AwaitReleaseOk { .. } => e is Released,
            RenamePhase::AwaitReleaseErr { .. } => e is Released,
            RenamePhase::AwaitCleanup { .. } => e is Ran,
            RenamePhase::Over => false,
        }
    }

    /// Whether `e` answers the step this session asked for last.
    pub fn expects(&self, e: &Event) -> (r: bool)
        ensures
            r == self.accepts(e),
    {
        match (&self.phase, e) {
            (RenamePhase::AwaitOldParent, Event::Resolved { .. }) => true,
            (RenamePhase::AwaitNewParent { .. }, Event::Resolved { .. }) => true,
            (RenamePhase::AwaitOldListing { .. }, Event::Listed(_)) => true,
            (RenamePhase::AwaitClaim { .. }, Event::Claimed(_)) => true,
            (RenamePhase::AwaitNewListing { .. }, Event::Listed(_)) => true,
            (RenamePhase::AwaitNamed { .. }, Event::Ran(_)) => true,
            (RenamePhase::AwaitMove { .. }, Event::Ran(_)) => true,
            (RenamePhase::AwaitReleaseOk { .. }, Event::Released) => true,
            (RenamePhase::AwaitReleaseErr { .. }, Event::Released) => true,
            (RenamePhase::AwaitCleanup { .. }, Event::Ran(_)) => true,
            _ => false,
        }
    }

    /// Gives up after the host failed at the last step: the claim, if one is
    /// held, is given up first.
    pub fn abort(&mut self, msg: String) -> (r: Step)
        requires
            !old(self).phase.releasing(),
            !(old(self).phase is Over),
        ensures
            final(self).old_parent == old(self).old_parent,
            final(self).old_name == old(self).old_name,
            final(self).new_parent == old(self).new_parent,
            final(self).new_name == old(self).new_name,
            old(self).phase.holding() ==> (r matches Step::Release { name: n, .. } && n@ == old(
                self,
            ).new_name@ && final(self).phase == RenamePhase::AwaitReleaseErr {
                failure: Failure::Host(msg),
            }),
            !old(self).phase.holding() ==> r == Step::Finish(Err(Failure::Host(msg)))
                && final(self).phase is Over,
    {
        let mut phase = RenamePhase::Over;
        std::mem::swap(&mut phase, &mut self.phase);
        let dir = match phase {
            RenamePhase::AwaitNewListing { ndir, .. } => ndir,
            RenamePhase::AwaitNamed { ndir, .. } => ndir,
            RenamePhase::AwaitMove { ndir, .. } => ndir,
            _ => {
                return Step::Finish(Err(Failure::Host(msg)));
            },
        };
        self.phase = RenamePhase::AwaitReleaseErr { failure: Failure::Host(msg) };
        Step::Release { dir, name: self.new_name.clone() }
    }

    /// Takes the answer to the last step and says what to do next.
    pub fn next(&mut self, e: Event) -> (r: Step)
        requires
            old(self).accepts(&e),
        ensures
            final(self).old_parent == old(self).old_parent,
            final(self).old_name == old(self).old_name,
            final(self).new_parent == old(self).new_parent,
            final(self).new_name == old(self).new_name,
            r is Finish <==> final(self).phase is Over,
            // The claim on the new name: asked for only when none is held,
            // kept until the session asks to give it up, and never held when
            // the session finishes.
            r is Reserve ==> !old(self).phase.holding() && final(self).phase is AwaitClaim,
            old(self).phase.holding() ==> (final(self).phase.holding() || (r is Release
                && final(self).phase.releasing())),
            r is Release ==> old(self).phase.holding(),
            r is Finish ==> !old(self).phase.holding(),
            // Each answer leads to exactly one next step and phase.
            (match (old(self).phase, e) {
                // Both directories must resolve and be directories.
                (RenamePhase::AwaitOldParent, Event::Resolved { found, is_dir, dir, .. }) => if !found {
                    r == Step::Finish(Err(Failure::Nfs(NfsError::Stale)))
                } else if !is_dir {
                    r == Step::Finish(Err(Failure::Nfs(NfsError::Notdir)))
                } else {
                    r == Step::Resolve { fid: old(self).new_parent } && final(self).phase
                        == RenamePhase::AwaitNewParent { odir: dir }
                },
                (RenamePhase::AwaitNewParent { odir }, Event::Resolved { found, is_dir, dir, chain }) => if !found {
                    r == Step::Finish(Err(Failure::Nfs(NfsError::Stale)))
                } else if !is_dir {
                    r == Step::Finish(Err(Failure::Nfs(NfsError::Notdir)))
                } else {
                    r == Step::List { dir: odir } && final(self).phase
                        == RenamePhase::AwaitOldListing { odir, ndir: dir, nchain: chain }
                },
                // The object must be visible under its old name.
                (RenamePhase::AwaitOldListing { odir, ndir, nchain }, Event::Listed(l)) => if !names_some(
                    l@,
                    old(self).old_name@,
                ) {
                    r == Step::Finish(Err(Failure::Nfs(NfsError::Noent)))
                } else {
                    r == Step::Reserve { dir: ndir, name: old(self).new_name } && (final(self).phase matches RenamePhase::AwaitClaim {
                        odir: o,
                        ndir: n,
                        nchain: c,
                        fid,
                    } && o == odir && n == ndir && c == nchain && visible(l@, fid, old(self).old_name@))
                },
                // A name claimed by another operation exists already.
                (RenamePhase::AwaitClaim { odir, ndir, nchain, fid }, Event::Claimed(ok)) => if !ok {
                    r == Step::Finish(Err(Failure::Nfs(NfsError::Exist)))
                } else {
                    r == Step::List { dir: ndir } && final(self).phase
                        == RenamePhase::AwaitNewListing { odir, ndir, nchain, fid }
                },
                // No rename takes over a visible name, or moves a directory
                // into itself; otherwise the plan runs in three parts.
                (RenamePhase::AwaitNewListing { odir, ndir, nchain, fid }, Event::Listed(l)) => if names_some(
                    l@,
                    old(self).new_name@,
                ) {
                    r == Step::Release { dir: ndir, name: old(self).new_name } && final(self).phase
                        == RenamePhase::AwaitReleaseErr { failure: Failure::Nfs(NfsError::Exist) }
                } else if nchain@.contains(fid) {
                    r == Step::Release { dir: ndir, name: old(self).new_name } && (final(self).phase matches RenamePhase::AwaitReleaseErr {
                        failure: Failure::Host(m),
                    } && m@ == "a directory cannot move into itself"@)
                } else {
                    (r matches Step::Run { ops } && (final(self).phase matches RenamePhase::AwaitNamed {
                        ndir: nd,
                        fid: f,
                        mv,
                        tail,
                    } && nd == ndir && f == fid && ops@.len() == 2 && mv@.len() == 2 && tail@.len() == 1
                        && plan_view(ops@ + mv@ + tail@) == rename_steps(
                        odir@,
                        ndir@,
                        fid,
                        old(self).old_name@,
                        old(self).new_name@,
                    )))
                },
                (RenamePhase::AwaitNamed { ndir, fid, mv, tail }, Event::Ran(res)) => match res {
                    Ok(()) => r == Step::Move {
                        fid,
                        from: old(self).old_parent,
                        to: old(self).new_parent,
                        ops: mv,
                    } && final(self).phase == RenamePhase::AwaitMove { ndir, fid, tail },
                    Err(msg) => r == Step::Release { dir: ndir, name: old(self).new_name } && final(self).phase
                        == RenamePhase::AwaitReleaseErr { failure: Failure::Host(msg) },
                },
                (RenamePhase::AwaitMove { ndir, fid, tail }, Event::Ran(res)) => r == Step::Release {
                    dir: ndir,
                    name: old(self).new_name,
                } && final(self).phase == match res {
                    Ok(()) => RenamePhase::AwaitReleaseOk { fid, tail },
                    Err(msg) => RenamePhase::AwaitReleaseErr { failure: Failure::Host(msg) },
                },
                // Once the claim is given up, the old named file goes.
                (RenamePhase::AwaitReleaseOk { fid, tail }, Event::Released) => r == Step::Run {
                    ops: tail,
                } && final(self).phase == RenamePhase::AwaitCleanup { fid },
                (RenamePhase::AwaitReleaseErr { failure }, Event::Released) => r == Step::Finish(
                    Err::<u64, Failure>(failure),
                ),
                (RenamePhase::AwaitCleanup { fid }, Event::Ran(res)) => match res {
                    Ok(()) => r == Step::Finish(Ok::<u64, Failure>(fid)),
                    Err(msg) => r == Step::Finish(Err(Failure::Host(msg))),
                },
                _ => true,
            }),
    {
        let mut phase = RenamePhase::Over;
        std::mem::swap(&mut phase, &mut self.phase);
        match (phase, e) {
            (RenamePhase::AwaitOldParent, Event::Resolved { found, is_dir, dir, .. }) => {
                match check_dir(found, is_dir) {
                    Err(err) => Step::Finish(Err(Failure::Nfs(err))),
                    Ok(()) => {
                        self.phase = RenamePhase::AwaitNewParent { odir: dir };
                        Step::Resolve { fid: self.new_parent }
                    },
                }
            },
            (RenamePhase::AwaitNewParent { odir }, Event::Resolved { found, is_dir, dir, chain }) => {
                match check_dir(found, is_dir) {
                    Err(err) => Step::Finish(Err(Failure::Nfs(err))),
                    Ok(()) => {
                        let d = odir.clone();
                        self.phase = RenamePhase::AwaitOldListing { odir, ndir: dir, nchain: chain };
                        Step::List { dir: d }
                    },
                }
            },
            (RenamePhase::AwaitOldListing { odir, ndir, nchain }, Event::Listed(l)) => {
                match find_by_name(&l, self.old_name.as_str()) {
                    None => Step::Finish(Err(Failure::Nfs(NfsError::Noent))),
                    Some(fid) => {
                        let d = ndir.clone();
                        self.phase = RenamePhase::AwaitClaim { odir, ndir, nchain, fid };
                        Step::Reserve { dir: d, name: self.new_name.clone() }
                    },
                }
            },
            (RenamePhase::AwaitClaim { odir, ndir, nchain, fid }, Event::Claimed(ok)) => {
                if !ok {
                    Step::Finish(Err(Failure::Nfs(NfsError::Exist)))
                } else {
                    let d = ndir.clone();
                    self.phase = RenamePhase::AwaitNewListing { odir, ndir, nchain, fid };
                    Step::List { dir: d }
                }
            },
            (RenamePhase::AwaitNewListing { odir, ndir, nchain, fid }, Event::Listed(l)) => {
                match find_by_name(&l, self.new_name.as_str()) {
                    Some(_) => {
                        self.phase = RenamePhase::AwaitReleaseErr {
                            failure: Failure::Nfs(NfsError::Exist),
                        };
                        Step::Release { dir: ndir, name: self.new_name.clone() }
                    },
                    None => {
                        if moves_into_itself(fid, &nchain) {
                            self.phase = RenamePhase::AwaitReleaseErr {
                                failure: Failure::Host(
                                    "a directory cannot move into itself".to_owned(),
                                ),
                            };
                            Step::Release { dir: ndir, name: self.new_name.clone() }
                        } else {
                            let mut first = rename_plan(
                                odir.as_str(),
                                ndir.as_str(),
                                fid,
                                self.old_name.as_str(),
                                self.new_name.as_str(),
                            );
                            let ghost whole = first@;
                            assert(plan_view(whole).len() == 5);
                            let mut mv = first.split_off(2);
                            let tail = mv.split_off(2);
                            assert(first@ + mv@ + tail@ =~= whole);
                            self.phase = RenamePhase::AwaitNamed { ndir, fid, mv, tail };
                            Step::Run { ops: first }
                        }
                    },
                }
            },
            (RenamePhase::AwaitNamed { ndir, fid, mv, tail }, Event::Ran(res)) => {
                match res {
                    Ok(()) => {
                        self.phase = RenamePhase::AwaitMove { ndir, fid, tail };
                        Step::Move { fid, from: self.old_parent, to: self.new_parent, ops: mv }
                    },
                    Err(msg) => {
                        self.phase = RenamePhase::AwaitReleaseErr { failure: Failure::Host(msg) };
                        Step::Release { dir: ndir, name: self.new_name.clone() }
                    },
                }
            },
            (RenamePhase::AwaitMove { ndir, fid, tail }, Event::Ran(res)) => {
                match res {
                    Ok(()) => {
                        self.phase = RenamePhase::AwaitReleaseOk { fid, tail };
                    },
                    Err(msg) => {
                        self.phase = RenamePhase::AwaitReleaseErr { failure: Failure::Host(msg) };
                    },
                }
                Step::Release { dir: ndir, name: self.new_name.clone() }
            },
            (RenamePhase::AwaitReleaseOk { fid, tail }, Event::Released) => {
                self.phase = RenamePhase::AwaitCleanup { fid };
                Step::Run { ops: tail }
            },
            (RenamePhase::AwaitReleaseErr { failure }, Event::Released) => Step::Finish(Err(failure)),
            (RenamePhase::AwaitCleanup { fid }, Event::Ran(res)) => {
                match res {
                    Ok(()) => Step::Finish(Ok(fid)),
                    Err(msg) => Step::Finish(Err(Failure::Host(msg))),
                }
            },
            (_, _) => Step::Finish(Err(Failure::Nfs(NfsError::Stale))),
        }
    }
}

/// The path of the numbered file of `fid` inside the directory at `dir`.
pub fn child_path(dir: &String, fid: u64) -> (r: String)
    ensures
        r@ == dir@ + seq!['/'] + numbered_leaf(fid),
{
    let mut path = dir.clone();
    proof {
        reveal_strlit("/");
    }
    path.append("/");
    let leaf = fid_leaf(fid);
    path.append(leaf.as_str());
    path
}

} // verus!
