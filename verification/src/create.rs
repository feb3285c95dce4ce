//! Bringing a cgroup into being and a process into it.

use vstd::prelude::*;
use vstd::string::StringExecFns;

use crate::controller_type;
use crate::controller_type::ControllerType;
use crate::decimal;
use crate::error;
use crate::error::{V2ManagerError, V2ManagerErrorView, WrappedIoError, WrappedIoErrorView};
use crate::manager::Manager;
use crate::path;
use crate::path::UnixPath;
use crate::request;
use crate::request::{Reply, ReplyView, Request, RequestView};
use crate::subtree;
use crate::subtree::{WriteControllers, WriteControllersView};

verus! {

/// The file of a cgroup that lists its processes.
pub const CGROUP_PROCS: &'static str = "cgroup.procs";

/// What is written to switch on each of the controllers that are there.
pub open spec fn switches(list: Seq<ControllerType>) -> Seq<Seq<char>> {
    list.map_values(|c: ControllerType| controller_type::switch_on(c))
}

/// Makes what is written to switch on each of the controllers that are there.
pub fn switch_on_all(list: &[ControllerType]) -> (r: Vec<String>)
    ensures
        subtree::strings(r@) == switches(list@),
{
    let mut r: Vec<String> = Vec::new();
    let mut i: usize = 0;
    while i < list.len()
        invariant
            i <= list@.len(),
            subtree::strings(r@) == switches(list@).take(i as int),
        decreases list@.len() - i,
    {
        let ghost before = subtree::strings(r@);
        let item: String = "+".to_owned().concat(list[i].name());
        proof {
            assert(switches(list@).take(i + 1) =~= switches(list@).take(i as int).push(item@));
        }
        r.push(item);
        proof {
            assert(subtree::strings(r@) =~= before.push(item@));
        }
        i += 1;
    }
    proof {
        assert(switches(list@).take(i as int) =~= switches(list@));
    }
    r
}

/// What an operation that brings a process into a cgroup is at.
pub enum CreatePhaseView {
    /// Finding out whether the cgroup is there.
    ProbeFull,
    /// Finding out which controllers there are.
    ListControllers,
    /// Finding out whether the directory is there.
    Probe,
    /// Making the directory.
    MakeDir,
    /// Looking at the directory that was made.
    Inspect,
    /// Switching controllers on for what is below the directory.
    Enable(WriteControllersView),
    /// Writing the process id.
    Attach,
    /// At the end.
    Done(Result<(), V2ManagerErrorView>),
}

/// The model of [`CreateCgroup`].
pub struct CreateCgroupView {
    /// The mount point of the hierarchy.
    pub root: Seq<u8>,
    /// The cgroup.
    pub full: Seq<u8>,
    /// The names that lead from the one to the other.
    pub steps: Seq<Seq<u8>>,
    /// The process.
    pub pid: i32,
    /// What is written to switch on the controllers.
    pub controllers: Seq<Seq<char>>,
    /// The name that the operation is at.
    pub index: int,
    /// What it is at.
    pub phase: CreatePhaseView,
}

impl CreateCgroupView {
    /// The directory that the operation is at.
    pub open spec fn current(self) -> Seq<u8> {
        path::walk(self.root, self.steps, self.index + 1)
    }

    /// Whether the operation is at a directory.
    pub open spec fn at_directory(self) -> bool {
        match self.phase {
            CreatePhaseView::Probe => true,
            CreatePhaseView::MakeDir => true,
            CreatePhaseView::Inspect => true,
            CreatePhaseView::Enable(_) => true,
            _ => false,
        }
    }

    /// Whether the directory that the operation is at is the mount point itself:
    /// that is so for a `.` in front of the path of the cgroup.
    pub open spec fn at_root(self) -> bool {
        self.steps[self.index] == path::dot()
    }

    /// Whether the parts fit together. Controllers are never switched on in
    /// the last directory: a cgroup with processes cannot have that. Nor are
    /// they in the mount point, which belongs to another manager.
    pub open spec fn wf(self) -> bool {
        &&& self.at_directory() ==> 0 <= self.index < self.steps.len()
        &&& self.phase matches CreatePhaseView::Enable(w) ==> {
            &&& self.index + 1 < self.steps.len()
            &&& !self.at_root()
            &&& w.wf()
            &&& w.path == self.current()
            &&& w.controllers == self.controllers
            &&& w.result() is None
        }
    }

    /// The operation that makes the cgroup of `m` and puts `pid` into it.
    pub open spec fn start(m: Manager, pid: i32) -> Self {
        CreateCgroupView {
            root: m.root(),
            full: m.full(),
            steps: path::names(m.cgroup()),
            pid,
            controllers: Seq::empty(),
            index: 0,
            phase: CreatePhaseView::ListControllers,
        }
    }

    /// The operation that puts `pid` into the cgroup of `m`, and makes the
    /// cgroup if it is not there.
    pub open spec fn start_add(m: Manager, pid: i32) -> Self {
        CreateCgroupView { phase: CreatePhaseView::ProbeFull, ..Self::start(m, pid) }
    }

    /// The write that puts the process into the cgroup.
    pub open spec fn attachment(self) -> RequestView {
        RequestView::WriteCgroupFile {
            path: subtree::file_in(self.full, CGROUP_PROCS@),
            data: decimal::decimal(self.pid as int),
        }
    }

    /// What is asked next.
    pub open spec fn asks(self) -> Option<RequestView> {
        match self.phase {
            CreatePhaseView::ProbeFull => Some(RequestView::Exists { path: self.full }),
            CreatePhaseView::ListControllers => Some(
                RequestView::AvailableControllers { root: self.root },
            ),
            CreatePhaseView::Probe => Some(RequestView::Exists { path: self.current() }),
            CreatePhaseView::MakeDir => Some(RequestView::CreateDir { path: self.current() }),
            CreatePhaseView::Inspect => Some(RequestView::Metadata { path: self.current() }),
            CreatePhaseView::Enable(w) => w.asks(),
            CreatePhaseView::Attach => Some(self.attachment()),
            CreatePhaseView::Done(_) => None,
        }
    }

    /// How the operation ended, if it has.
    pub open spec fn result(self) -> Option<Result<(), V2ManagerErrorView>> {
        match self.phase {
            CreatePhaseView::Done(r) => Some(r),
            _ => None,
        }
    }

    /// The operation at its end.
    pub open spec fn done(self, r: Result<(), V2ManagerErrorView>) -> Self {
        CreateCgroupView { phase: CreatePhaseView::Done(r), ..self }
    }

    /// The operation at its end, for a failure at a file.
    pub open spec fn failed(self, e: WrappedIoErrorView) -> Self {
        self.done(Err(V2ManagerErrorView::WrappedIo(e)))
    }

    /// The operation at the directory with this index, or behind the last one.
    pub open spec fn arrive(self, index: int) -> Self {
        CreateCgroupView {
            index,
            phase: if index < self.steps.len() {
                CreatePhaseView::Probe
            } else {
                CreatePhaseView::Attach
            },
            ..self
        }
    }

    /// The operation with the current directory in place: controllers are
    /// switched on there unless it is the last one or the mount point.
    pub open spec fn settle(self, strict: bool) -> Self {
        let w = WriteControllersView::start(self.current(), self.controllers, strict);
        if self.index + 1 < self.steps.len() && !self.at_root() && w.result() is None {
            CreateCgroupView { phase: CreatePhaseView::Enable(w), ..self }
        } else {
            self.arrive(self.index + 1)
        }
    }

    /// The operation with the writing of controllers as far as `w`.
    pub open spec fn enabling(self, w: WriteControllersView) -> Self {
        match w.result() {
            None => CreateCgroupView { phase: CreatePhaseView::Enable(w), ..self },
            Some(Ok(_)) => self.arrive(self.index + 1),
            Some(Err(e)) => self.failed(e),
        }
    }

    /// Where a reply leads to. One that does not answer what was asked changes nothing.
    pub open spec fn after(self, reply: ReplyView) -> Self {
        match (self.phase, reply) {
            (CreatePhaseView::ProbeFull, ReplyView::Exists(there)) => CreateCgroupView {
                phase: if there {
                    CreatePhaseView::Attach
                } else {
                    CreatePhaseView::ListControllers
                },
                ..self
            },
            (CreatePhaseView::ListControllers, ReplyView::Controllers(r)) => match r {
                Ok(list) => CreateCgroupView { controllers: switches(list), ..self }.arrive(0),
                Err(e) => self.done(Err(V2ManagerErrorView::Util(e))),
            },
            (CreatePhaseView::Probe, ReplyView::Exists(there)) => if there {
                self.settle(false)
            } else {
                CreateCgroupView { phase: CreatePhaseView::MakeDir, ..self }
            },
            (CreatePhaseView::MakeDir, ReplyView::Io(r)) => match r {
                Ok(_) => CreateCgroupView { phase: CreatePhaseView::Inspect, ..self },
                Err(err) => self.failed(
                    WrappedIoErrorView::CreateDir { err, path: self.current() },
                ),
            },
            (CreatePhaseView::Inspect, ReplyView::Io(r)) => match r {
                Ok(_) => self.settle(true),
                Err(err) => self.failed(WrappedIoErrorView::Other { err, path: self.current() }),
            },
            (CreatePhaseView::Enable(w), _) => self.enabling(w.after(reply)),
            (CreatePhaseView::Attach, ReplyView::Wrapped(r)) => match r {
                Ok(_) => self.done(Ok(())),
                Err(e) => self.failed(e),
            },
            _ => self,
        }
    }
}

/// What an operation that brings a process into a cgroup is at.
#[derive(Debug)]
enum Phase {
    ProbeFull,
    ListControllers,
    Probe,
    MakeDir,
    Inspect,
    Enable(WriteControllers),
    Attach,
    Done(Result<(), V2ManagerError>),
}

impl View for Phase {
    type V = CreatePhaseView;

    closed spec fn view(&self) -> CreatePhaseView {
        match *self {
            Phase::ProbeFull => CreatePhaseView::ProbeFull,
            Phase::ListControllers => CreatePhaseView::ListControllers,
            Phase::Probe => CreatePhaseView::Probe,
            Phase::MakeDir => CreatePhaseView::MakeDir,
            Phase::Inspect => CreatePhaseView::Inspect,
            Phase::Enable(w) => CreatePhaseView::Enable(w@),
            Phase::Attach => CreatePhaseView::Attach,
            Phase::Done(r) => CreatePhaseView::Done(error::outcome(r)),
        }
    }
}

/// A process being brought into a cgroup, which is made if need be.
///
/// Controllers are switched on in the directories on the way, and never in the
/// mount point itself, not even where a `.` in front of the path of the cgroup
/// puts it on the way: in nested setups it belongs to another manager. In a
/// directory that this operation made, every failure counts; one that was
/// there before belongs to somebody else, and failures that are expected there
/// are passed over. The last directory gets no controllers switched on, or the
/// process could not be put into it.
#[derive(Debug)]
pub struct CreateCgroup {
    root: UnixPath,
    full: UnixPath,
    steps: Vec<Vec<u8>>,
    pid: i32,
    controllers: Vec<String>,
    index: usize,
    current: UnixPath,
    phase: Phase,
}

impl View for CreateCgroup {
    type V = CreateCgroupView;

    closed spec fn view(&self) -> CreateCgroupView {
        CreateCgroupView {
            root: self.root@,
            full: self.full@,
            steps: path::texts(self.steps@),
            pid: self.pid,
            controllers: subtree::strings(self.controllers@),
            index: self.index as int,
            phase: self.phase@,
        }
    }
}

impl Manager {
    /// Starts creating a unified cgroup at the path of the manager and
    /// attaching a process to it.
    pub fn create_unified_cgroup(&self, pid: i32) -> (r: CreateCgroup)
        ensures
            r@ == CreateCgroupView::start(*self, pid),
            r@.wf(),
    {
        let r = CreateCgroup {
            root: self.root_path().copy(),
            full: self.full_path().copy(),
            steps: self.cgroup_path().names(),
            pid,
            controllers: Vec::new(),
            index: 0,
            current: self.root_path().copy(),
            phase: Phase::ListControllers,
        };
        proof {
            assert(subtree::strings(r.controllers@) =~= Seq::<Seq<char>>::empty());
        }
        r
    }

    /// Starts adding a process to the cgroup, which is created if it does not exist.
    pub fn add_task(&self, pid: i32) -> (r: CreateCgroup)
        ensures
            r@ == CreateCgroupView::start_add(*self, pid),
            r@.wf(),
    {
        CreateCgroup { phase: Phase::ProbeFull, ..self.create_unified_cgroup(pid) }
    }
}

impl CreateCgroup {
    #[verifier::type_invariant]
    spec fn inv(self) -> bool {
        &&& self@.wf()
        &&& self@.at_directory() ==> self.current@ == self@.current()
    }

    /// Goes to the directory with this index, which `here` is the parent of, or
    /// behind the last one.
    fn arrive(self, index: usize, here: UnixPath) -> (r: CreateCgroup)
        requires
            index <= self@.steps.len(),
            here@ == path::walk(self@.root, self@.steps, index as int),
        ensures
            r@ == self@.arrive(index as int),
    {
        if index < self.steps.len() {
            let current = here.join(self.steps[index].as_slice());
            proof {
                assert(self@.steps[index as int] == self.steps@[index as int]@);
            }
            CreateCgroup { index, current, phase: Phase::Probe, ..self }
        } else {
            CreateCgroup { index, phase: Phase::Attach, ..self }
        }
    }

    /// Goes on with the current directory in place.
    fn settle(self, strict: bool) -> (r: CreateCgroup)
        requires
            self@.at_directory(),
        ensures
            r@ == self@.settle(strict),
    {
        proof {
            use_type_invariant(&self);
        }
        let count: usize = self.steps.len();
        let next: usize = self.index + 1;
        proof {
            assert(self@.steps[self.index as int] == self.steps@[self.index as int]@);
        }
        if next < count && !path::is_dot(self.steps[self.index].as_slice())
            && self.controllers.len() > 0 {
            let w = Manager::write_controllers(
                &self.current,
                self.controllers.as_slice(),
                strict,
            );
            CreateCgroup { phase: Phase::Enable(w), ..self }
        } else {
            let here = self.current.copy();
            self.arrive(next, here)
        }
    }

    /// Names what is needed next; none when the operation has ended.
    pub fn request(&self) -> (r: Option<Request>)
        ensures
            request::asked(r) == self@.asks(),
            self@.wf(),
    {
        proof {
            use_type_invariant(self);
        }
        match &self.phase {
            Phase::ProbeFull => Some(Request::Exists { path: self.full.copy() }),
            Phase::ListControllers => Some(
                Request::AvailableControllers { root: self.root.copy() },
            ),
            Phase::Probe => Some(Request::Exists { path: self.current.copy() }),
            Phase::MakeDir => Some(Request::CreateDir { path: self.current.copy() }),
            Phase::Inspect => Some(Request::Metadata { path: self.current.copy() }),
            Phase::Enable(w) => w.request(),
            Phase::Attach => Some(
                Request::WriteCgroupFile {
                    path: subtree::cgroup_file(&self.full, CGROUP_PROCS),
                    data: decimal::to_decimal(self.pid),
                },
            ),
            Phase::Done(_) => None,
        }
    }

    /// Goes on with the reply to the last request.
    pub fn resume(self, reply: Reply) -> (r: CreateCgroup)
        ensures
            r@ == self@.after(reply@),
            r@.wf(),
    {
        proof {
            use_type_invariant(&self);
        }
        let r = match self.phase {
            Phase::ProbeFull => match reply {
                Reply::Exists(true) => CreateCgroup { phase: Phase::Attach, ..self },
                Reply::Exists(false) => CreateCgroup { phase: Phase::ListControllers, ..self },
                _ => CreateCgroup { phase: Phase::ProbeFull, ..self },
            },
            Phase::ListControllers => match reply {
                Reply::Controllers(Ok(list)) => {
                    let here = self.root.copy();
                    CreateCgroup {
                        controllers: switch_on_all(list.as_slice()),
                        phase: Phase::ListControllers,
                        ..self
                    }.arrive(0, here)
                },
                Reply::Controllers(Err(e)) => CreateCgroup {
                    phase: Phase::Done(Err(V2ManagerError::Util(e))),
                    ..self
                },
                _ => CreateCgroup { phase: Phase::ListControllers, ..self },
            },
            Phase::Probe => match reply {
                Reply::Exists(true) => CreateCgroup { phase: Phase::Probe, ..self }.settle(false),
                Reply::Exists(false) => CreateCgroup { phase: Phase::MakeDir, ..self },
                _ => CreateCgroup { phase: Phase::Probe, ..self },
            },
            Phase::MakeDir => match reply {
                Reply::Io(Ok(_)) => CreateCgroup { phase: Phase::Inspect, ..self },
                Reply::Io(Err(err)) => {
                    let e = WrappedIoError::CreateDir { err, path: self.current.copy() };
                    CreateCgroup { phase: Phase::Done(Err(V2ManagerError::WrappedIo(e))), ..self }
                },
                _ => CreateCgroup { phase: Phase::MakeDir, ..self },
            },
            Phase::Inspect => match reply {
                Reply::Io(Ok(_)) => CreateCgroup { phase: Phase::Inspect, ..self }.settle(true),
                Reply::Io(Err(err)) => {
                    let e = WrappedIoError::Other { err, path: self.current.copy() };
                    CreateCgroup { phase: Phase::Done(Err(V2ManagerError::WrappedIo(e))), ..self }
                },
                _ => CreateCgroup { phase: Phase::Inspect, ..self },
            },
            Phase::Enable(w) => {
                let w = w.resume(reply);
                if !w.has_ended() {
                    CreateCgroup { phase: Phase::Enable(w), ..self }
                } else {
                    match w.finish() {
                        Some(Err(e)) => CreateCgroup {
                            phase: Phase::Done(Err(V2ManagerError::WrappedIo(e))),
                            ..self
                        },
                        _ => {
                            let here = self.current.copy();
                            let count: usize = self.steps.len();
                            proof {
                                assert(self.index < count);
                            }
                            let next: usize = self.index + 1;
                            CreateCgroup { phase: Phase::Probe, ..self }.arrive(next, here)
                        },
                    }
                }
            },
            Phase::Attach => match reply {
                Reply::Wrapped(Ok(_)) => CreateCgroup { phase: Phase::Done(Ok(())), ..self },
                Reply::Wrapped(Err(e)) => CreateCgroup {
                    phase: Phase::Done(Err(V2ManagerError::WrappedIo(e))),
                    ..self
                },
                _ => CreateCgroup { phase: Phase::Attach, ..self },
            },
            Phase::Done(end) => CreateCgroup { phase: Phase::Done(end), ..self },
        };
        proof {
            use_type_invariant(&r);
        }
        r
    }

    /// Tells how the operation ended; none while it goes on.
    pub fn finish(self) -> (r: Option<Result<(), V2ManagerError>>)
        ensures
            match r {
                Some(end) => self@.result() == Some(error::outcome(end)),
                None => self@.result() is None,
            },
    {
        match self.phase {
            Phase::Done(r) => Some(r),
            _ => None,
        }
    }
}

} // verus!
