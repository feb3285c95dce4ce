//! Removing a cgroup and the processes in it.

use vstd::prelude::*;

use crate::create::CGROUP_PROCS;
use crate::decimal::ParseIntError;
use crate::error;
use crate::error::{
    IoError, V2ManagerError, V2ManagerErrorView, WrappedIoError, WrappedIoErrorView,
};
use crate::manager::Manager;
use crate::path::UnixPath;
use crate::procs;
use crate::procs::Procs;
use crate::request;
use crate::request::{Reply, ReplyView, Request, RequestView};
use crate::subtree;

verus! {

/// The file of a cgroup that kills its processes when `1` is written to it.
pub const CGROUP_KILL: &'static str = "cgroup.kill";

/// How often the removal of a directory is tried.
pub const DELETE_RETRIES: u32 = 4;

/// The longest time from one attempt to the next, in milliseconds.
pub const DELETE_LIMIT_MILLIS: u64 = 100;

/// What a removal is at.
pub enum RemovePhaseView {
    /// Finding out whether the cgroup is there.
    ProbeFull,
    /// Finding out whether the kernel can kill all processes of a cgroup.
    ProbeKill,
    /// Having the kernel kill them.
    KillAll,
    /// Reading which processes there are.
    ReadProcs,
    /// Killing the processes one by one: these are left. When none is, the
    /// list of them turned out to be good, or to have this fault.
    Signal(Seq<i32>, Option<ParseIntError>),
    /// Removing the directory.
    Delete,
    /// At the end.
    Done(Result<(), V2ManagerErrorView>),
}

/// The model of [`RemoveCgroup`].
pub struct RemoveCgroupView {
    /// The cgroup.
    pub full: Seq<u8>,
    /// What the removal is at.
    pub phase: RemovePhaseView,
}

impl RemoveCgroupView {
    /// The removal of the cgroup of `m`.
    pub open spec fn start(m: Manager) -> Self {
        RemoveCgroupView { full: m.full(), phase: RemovePhaseView::ProbeFull }
    }

    /// Whether the parts fit together: in between there is always a process left.
    pub open spec fn wf(self) -> bool {
        self.phase matches RemovePhaseView::Signal(left, _) ==> left.len() > 0
    }

    /// The file that kills all processes.
    pub open spec fn kill_file(self) -> Seq<u8> {
        subtree::file_in(self.full, CGROUP_KILL@)
    }

    /// The file that lists the processes.
    pub open spec fn procs_file(self) -> Seq<u8> {
        subtree::file_in(self.full, CGROUP_PROCS@)
    }

    /// What is asked next.
    pub open spec fn asks(self) -> Option<RequestView> {
        match self.phase {
            RemovePhaseView::ProbeFull => Some(RequestView::Exists { path: self.full }),
            RemovePhaseView::ProbeKill => Some(RequestView::Exists { path: self.kill_file() }),
            RemovePhaseView::KillAll => Some(
                RequestView::WriteFile { path: self.kill_file(), data: "1"@ },
            ),
            RemovePhaseView::ReadProcs => Some(
                RequestView::ReadToString { path: self.procs_file() },
            ),
            RemovePhaseView::Signal(left, _) => Some(RequestView::Kill { pid: left[0] }),
            RemovePhaseView::Delete => Some(
                RequestView::DeleteWithRetry {
                    path: self.full,
                    retries: DELETE_RETRIES,
                    limit_millis: DELETE_LIMIT_MILLIS,
                },
            ),
            RemovePhaseView::Done(_) => None,
        }
    }

    /// How the removal ended, if it has.
    pub open spec fn result(self) -> Option<Result<(), V2ManagerErrorView>> {
        match self.phase {
            RemovePhaseView::Done(r) => Some(r),
            _ => None,
        }
    }

    /// The removal at this phase.
    pub open spec fn at(self, phase: RemovePhaseView) -> Self {
        RemoveCgroupView { phase, ..self }
    }

    /// The removal at its end, for a failure at a file.
    pub open spec fn failed(self, e: WrappedIoErrorView) -> Self {
        self.at(RemovePhaseView::Done(Err(V2ManagerErrorView::WrappedIo(e))))
    }

    /// The removal with these processes left to kill. The directory goes when
    /// none is left, unless the list of processes had a fault.
    pub open spec fn signalling(self, left: Seq<i32>, fault: Option<ParseIntError>) -> Self {
        if left.len() > 0 {
            self.at(RemovePhaseView::Signal(left, fault))
        } else {
            match fault {
                Some(kind) => self.failed(
                    WrappedIoErrorView::Other {
                        err: IoError::InvalidData(kind),
                        path: self.procs_file(),
                    },
                ),
                None => self.at(RemovePhaseView::Delete),
            }
        }
    }

    /// Where a reply leads to. One that does not answer what was asked changes nothing.
    pub open spec fn after(self, reply: ReplyView) -> Self {
        match (self.phase, reply) {
            (RemovePhaseView::ProbeFull, ReplyView::Exists(there)) => self.at(
                if there {
                    RemovePhaseView::ProbeKill
                } else {
                    RemovePhaseView::Done(Ok(()))
                },
            ),
            (RemovePhaseView::ProbeKill, ReplyView::Exists(there)) => self.at(
                if there {
                    RemovePhaseView::KillAll
                } else {
                    RemovePhaseView::ReadProcs
                },
            ),
            (RemovePhaseView::KillAll, ReplyView::Io(r)) => match r {
                Ok(_) => self.at(RemovePhaseView::Delete),
                Err(err) => self.failed(
                    WrappedIoErrorView::Write { err, path: self.kill_file(), data: "1"@ },
                ),
            },
            (RemovePhaseView::ReadProcs, ReplyView::Text(r)) => match r {
                Ok(text) => {
                    let bytes = vstd::utf8::encode_utf8(text);
                    self.signalling(procs::pids(bytes), procs::fault(bytes))
                },
                Err(err) => self.failed(WrappedIoErrorView::Read { err, path: self.procs_file() }),
            },
            (RemovePhaseView::Signal(left, fault), ReplyView::Signalled) => self.signalling(
                left.skip(1),
                fault,
            ),
            (RemovePhaseView::Delete, ReplyView::Wrapped(r)) => match r {
                Ok(_) => self.at(RemovePhaseView::Done(Ok(()))),
                Err(e) => self.failed(e),
            },
            _ => self,
        }
    }
}

/// What a removal is at.
#[derive(Debug)]
enum Phase {
    ProbeFull,
    ProbeKill,
    KillAll,
    ReadProcs,
    Signal { pids: Vec<i32>, sent: usize, fault: Option<ParseIntError> },
    Delete,
    Done(Result<(), V2ManagerError>),
}

impl View for Phase {
    type V = RemovePhaseView;

    closed spec fn view(&self) -> RemovePhaseView {
        match *self {
            Phase::ProbeFull => RemovePhaseView::ProbeFull,
            Phase::ProbeKill => RemovePhaseView::ProbeKill,
            Phase::KillAll => RemovePhaseView::KillAll,
            Phase::ReadProcs => RemovePhaseView::ReadProcs,
            Phase::Signal { pids, sent, fault } => RemovePhaseView::Signal(
                pids@.skip(sent as int),
                fault,
            ),
            Phase::Delete => RemovePhaseView::Delete,
            Phase::Done(r) => RemovePhaseView::Done(error::outcome(r)),
        }
    }
}

/// A cgroup being removed.
///
/// Its processes are killed first: by the kernel, all at once, where it can,
/// and else one by one, whether or not the signal reaches them.
#[derive(Debug)]
pub struct RemoveCgroup {
    full: UnixPath,
    phase: Phase,
}

impl View for RemoveCgroup {
    type V = RemoveCgroupView;

    closed spec fn view(&self) -> RemoveCgroupView {
        RemoveCgroupView { full: self.full@, phase: self.phase@ }
    }
}

impl Manager {
    /// Starts removing the cgroup.
    pub fn remove(&self) -> (r: RemoveCgroup)
        ensures
            r@ == RemoveCgroupView::start(*self),
            r@.wf(),
    {
        RemoveCgroup { full: self.full_path().copy(), phase: Phase::ProbeFull }
    }
}

impl RemoveCgroup {
    #[verifier::type_invariant]
    spec fn inv(self) -> bool {
        self.phase matches Phase::Signal { pids, sent, .. } ==> sent < pids@.len()
    }

    /// Gives the file that kills all processes.
    fn kill_file(&self) -> (file: UnixPath)
        ensures
            file@ == self@.kill_file(),
    {
        subtree::cgroup_file(&self.full, CGROUP_KILL)
    }

    /// Gives the file that lists the processes.
    fn procs_file(&self) -> (file: UnixPath)
        ensures
            file@ == self@.procs_file(),
    {
        subtree::cgroup_file(&self.full, CGROUP_PROCS)
    }

    /// Goes on with the first `sent` of the processes killed.
    fn signalling(self, pids: Vec<i32>, sent: usize, fault: Option<ParseIntError>) -> (r:
        RemoveCgroup)
        requires
            sent <= pids@.len(),
        ensures
            r@ == self@.signalling(pids@.skip(sent as int), fault),
    {
        if sent < pids.len() {
            return RemoveCgroup { phase: Phase::Signal { pids, sent, fault }, ..self };
        }
        match fault {
            Some(kind) => {
                let e = WrappedIoError::Other {
                    err: IoError::InvalidData(kind),
                    path: self.procs_file(),
                };
                RemoveCgroup { phase: Phase::Done(Err(V2ManagerError::WrappedIo(e))), ..self }
            },
            None => RemoveCgroup { phase: Phase::Delete, ..self },
        }
    }

    /// Names what is needed next; none when the removal has ended.
    pub fn request(&self) -> (r: Option<Request>)
        ensures
            request::asked(r) == self@.asks(),
            self@.wf(),
    {
        proof {
            use_type_invariant(self);
        }
        match &self.phase {
            Phase::ProbeFull => Some(Request::Exists { path: self.full.copy() }),
            Phase::ProbeKill => Some(Request::Exists { path: self.kill_file() }),
            Phase::KillAll => Some(
                Request::WriteFile { path: self.kill_file(), data: "1".to_owned() },
            ),
            Phase::ReadProcs => Some(Request::ReadToString { path: self.procs_file() }),
            Phase::Signal { pids, sent, .. } => Some(Request::Kill { pid: pids[*sent] }),
            Phase::Delete => Some(
                Request::DeleteWithRetry {
                    path: self.full.copy(),
                    retries: DELETE_RETRIES,
                    limit_millis: DELETE_LIMIT_MILLIS,
                },
            ),
            Phase::Done(_) => None,
        }
    }

    /// Goes on with the reply to the last request.
    pub fn resume(self, reply: Reply) -> (r: RemoveCgroup)
        ensures
            r@ == self@.after(reply@),
            r@.wf(),
    {
        proof {
            use_type_invariant(&self);
        }
        match self.phase {
            Phase::ProbeFull => match reply {
                Reply::Exists(true) => RemoveCgroup { phase: Phase::ProbeKill, ..self },
                Reply::Exists(false) => RemoveCgroup { phase: Phase::Done(Ok(())), ..self },
                _ => RemoveCgroup { phase: Phase::ProbeFull, ..self },
            },
            Phase::ProbeKill => match reply {
                Reply::Exists(true) => RemoveCgroup { phase: Phase::KillAll, ..self },
                Reply::Exists(false) => RemoveCgroup { phase: Phase::ReadProcs, ..self },
                _ => RemoveCgroup { phase: Phase::ProbeKill, ..self },
            },
            Phase::KillAll => match reply {
                Reply::Io(Ok(_)) => RemoveCgroup { phase: Phase::Delete, ..self },
                Reply::Io(Err(err)) => {
                    let path = subtree::cgroup_file(&self.full, CGROUP_KILL);
                    let e = WrappedIoError::Write { err, path, data: "1".to_owned() };
                    RemoveCgroup { phase: Phase::Done(Err(V2ManagerError::WrappedIo(e))), ..self }
                },
                _ => RemoveCgroup { phase: Phase::KillAll, ..self },
            },
            Phase::ReadProcs => match reply {
                Reply::Text(Ok(text)) => {
                    let found = Procs::read(text.as_str().as_bytes());
                    proof {
                        assert(found.pids@.skip(0) =~= found.pids@);
                    }
                    RemoveCgroup { phase: Phase::ReadProcs, ..self }.signalling(
                        found.pids,
                        0,
                        found.fault,
                    )
                },
                Reply::Text(Err(err)) => {
                    let path = subtree::cgroup_file(&self.full, CGROUP_PROCS);
                    let e = WrappedIoError::Read { err, path };
                    RemoveCgroup { phase: Phase::Done(Err(V2ManagerError::WrappedIo(e))), ..self }
                },
                _ => RemoveCgroup { phase: Phase::ReadProcs, ..self },
            },
            Phase::Signal { pids, sent, fault } => match reply {
                Reply::Signalled => {
                    proof {
                        assert(pids@.skip(sent as int).skip(1) =~= pids@.skip(sent + 1));
                    }
                    let count: usize = pids.len();
                    proof {
                        assert(sent < count);
                    }
                    RemoveCgroup { phase: Phase::ReadProcs, ..self }.signalling(
                        pids,
                        sent + 1,
                        fault,
                    )
                },
                _ => RemoveCgroup { phase: Phase::Signal { pids, sent, fault }, ..self },
            },
            Phase::Delete => match reply {
                Reply::Wrapped(Ok(_)) => RemoveCgroup { phase: Phase::Done(Ok(())), ..self },
                Reply::Wrapped(Err(e)) => RemoveCgroup {
                    phase: Phase::Done(Err(V2ManagerError::WrappedIo(e))),
                    ..self
                },
                _ => RemoveCgroup { phase: Phase::Delete, ..self },
            },
            Phase::Done(r) => RemoveCgroup { phase: Phase::Done(r), ..self },
        }
    }

    /// Tells how the removal ended; none while it goes on.
    pub fn finish(self) -> (r: Option<Result<(), V2ManagerError>>)
        ensures
            match r {
                Some(end) => self@.result() == Some(error::outcome(end)),
                None => self@.result() is None,
            },
    {
        match self.phase {
            Phase::Done(r) => Some(r),
            _ => None,
        }
    }
}

} // verus!
