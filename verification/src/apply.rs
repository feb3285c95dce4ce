//! Setting the resources of a cgroup.

use vstd::prelude::*;
use vstd::slice::slice_to_vec;

use crate::controller_type::{
    ControllerType, PseudoControllerType, CONTROLLER_TYPES, PSEUDO_CONTROLLER_TYPES,
};
use crate::error;
use crate::error::{SubsystemError, V2ManagerError, V2ManagerErrorView};
use crate::manager::Manager;
use crate::path::UnixPath;
use crate::request;
use crate::request::{Reply, ReplyView, Request, RequestView};

verus! {

/// What the setting of resources is at.
pub enum ApplyPhaseView {
    /// Setting the controller with this index.
    Controller(int),
    /// Setting the device rules.
    Devices,
    /// Finding out which controllers there are, for the pseudo controller with this index.
    ListControllers(int),
    /// Setting the unified resources, with these controllers there, for the
    /// pseudo controller with this index.
    Unified(int, Seq<ControllerType>),
    /// At the end.
    Done(Result<(), V2ManagerErrorView>),
}

/// The model of [`ApplyResources`].
pub struct ApplyResourcesView {
    /// The mount point of the hierarchy.
    pub root: Seq<u8>,
    /// The cgroup.
    pub full: Seq<u8>,
    /// Whether device rules are set.
    pub devices: bool,
    /// What the setting of resources is at.
    pub phase: ApplyPhaseView,
}

/// What a failure to set a controller is reported as. The cpuset and the pids
/// controller fail with an error at a file, which is reported as such.
pub open spec fn apply_error(c: ControllerType, e: SubsystemError) -> V2ManagerErrorView {
    match c {
        ControllerType::Cpu => V2ManagerErrorView::CpuController(e),
        ControllerType::HugeTlb => V2ManagerErrorView::HugeTlbController(e),
        ControllerType::Io => V2ManagerErrorView::IoController(e),
        _ => V2ManagerErrorView::MemoryController(e),
    }
}

/// Whether setting a controller fails with an error at a file.
pub open spec fn fails_at_file(c: ControllerType) -> bool {
    c == ControllerType::CpuSet || c == ControllerType::Pids
}

impl ApplyResourcesView {
    /// The setting of the resources of the cgroup of `m`.
    pub open spec fn start(m: Manager, devices: bool) -> Self {
        ApplyResourcesView {
            root: m.root(),
            full: m.full(),
            devices,
            phase: ApplyPhaseView::Controller(0),
        }
    }

    /// Whether the indices are in range.
    pub open spec fn wf(self) -> bool {
        match self.phase {
            ApplyPhaseView::Controller(i) => 0 <= i < CONTROLLER_TYPES@.len(),
            ApplyPhaseView::ListControllers(j) => 0 <= j < PSEUDO_CONTROLLER_TYPES@.len(),
            ApplyPhaseView::Unified(j, _) => 0 <= j < PSEUDO_CONTROLLER_TYPES@.len(),
            _ => true,
        }
    }

    /// What is asked next.
    pub open spec fn asks(self) -> Option<RequestView> {
        match self.phase {
            ApplyPhaseView::Controller(i) => Some(
                RequestView::Apply { controller: CONTROLLER_TYPES@[i], path: self.full },
            ),
            ApplyPhaseView::Devices => Some(RequestView::ApplyDevices { path: self.full }),
            ApplyPhaseView::ListControllers(_) => Some(
                RequestView::AvailableControllers { root: self.root },
            ),
            ApplyPhaseView::Unified(_, available) => Some(
                RequestView::ApplyUnified { path: self.full, available },
            ),
            ApplyPhaseView::Done(_) => None,
        }
    }

    /// How the setting of resources ended, if it has.
    pub open spec fn result(self) -> Option<Result<(), V2ManagerErrorView>> {
        match self.phase {
            ApplyPhaseView::Done(r) => Some(r),
            _ => None,
        }
    }

    /// The setting of resources at this phase.
    pub open spec fn at(self, phase: ApplyPhaseView) -> Self {
        ApplyResourcesView { phase, ..self }
    }

    /// The setting of resources at its end, with a failure.
    pub open spec fn failed(self, e: V2ManagerErrorView) -> Self {
        self.at(ApplyPhaseView::Done(Err(e)))
    }

    /// The setting of resources from the pseudo controller with this index on:
    /// of these, only the unified one is set here.
    pub open spec fn pseudo(self, j: int) -> Self
        decreases PSEUDO_CONTROLLER_TYPES@.len() - j,
    {
        if j >= PSEUDO_CONTROLLER_TYPES@.len() {
            self.at(ApplyPhaseView::Done(Ok(())))
        } else if PSEUDO_CONTROLLER_TYPES@[j] == PseudoControllerType::Unified {
            self.at(ApplyPhaseView::ListControllers(j))
        } else {
            self.pseudo(j + 1)
        }
    }

    /// The setting of resources with the controllers below this index set.
    pub open spec fn controller(self, i: int) -> Self {
        if i < CONTROLLER_TYPES@.len() {
            self.at(ApplyPhaseView::Controller(i))
        } else if self.devices {
            self.at(ApplyPhaseView::Devices)
        } else {
            self.pseudo(0)
        }
    }

    /// Where a reply leads to. One that does not answer what was asked changes nothing.
    pub open spec fn after(self, reply: ReplyView) -> Self {
        match (self.phase, reply) {
            (ApplyPhaseView::Controller(i), ReplyView::Wrapped(r)) if fails_at_file(
                CONTROLLER_TYPES@[i],
            ) => match r {
                Ok(_) => self.controller(i + 1),
                Err(e) => self.failed(V2ManagerErrorView::WrappedIo(e)),
            },
            (ApplyPhaseView::Controller(i), ReplyView::Subsystem(r)) if !fails_at_file(
                CONTROLLER_TYPES@[i],
            ) => match r {
                Ok(_) => self.controller(i + 1),
                Err(e) => self.failed(apply_error(CONTROLLER_TYPES@[i], e)),
            },
            (ApplyPhaseView::Devices, ReplyView::Subsystem(r)) => match r {
                Ok(_) => self.pseudo(0),
                Err(e) => self.failed(V2ManagerErrorView::DevicesController(e)),
            },
            (ApplyPhaseView::ListControllers(j), ReplyView::Controllers(r)) => match r {
                Ok(list) => self.at(ApplyPhaseView::Unified(j, list)),
                Err(e) => self.failed(V2ManagerErrorView::Util(e)),
            },
            (ApplyPhaseView::Unified(j, _), ReplyView::Subsystem(r)) => match r {
                Ok(_) => self.pseudo(j + 1),
                Err(e) => self.failed(V2ManagerErrorView::UnifiedController(e)),
            },
            _ => self,
        }
    }
}

/// What the setting of resources is at.
#[derive(Debug)]
enum Phase {
    Controller(usize),
    Devices,
    ListControllers(usize),
    Unified(usize, Vec<ControllerType>),
    Done(Result<(), V2ManagerError>),
}

impl View for Phase {
    type V = ApplyPhaseView;

    closed spec fn view(&self) -> ApplyPhaseView {
        match *self {
            Phase::Controller(i) => ApplyPhaseView::Controller(i as int),
            Phase::Devices => ApplyPhaseView::Devices,
            Phase::ListControllers(j) => ApplyPhaseView::ListControllers(j as int),
            Phase::Unified(j, list) => ApplyPhaseView::Unified(j as int, list@),
            Phase::Done(r) => ApplyPhaseView::Done(error::outcome(r)),
        }
    }
}

/// The resources of a cgroup being set: one controller after the other, then
/// the device rules where they are supported, then the unified resources. The
/// first failure ends it.
#[derive(Debug)]
pub struct ApplyResources {
    root: UnixPath,
    full: UnixPath,
    devices: bool,
    phase: Phase,
}

impl View for ApplyResources {
    type V = ApplyResourcesView;

    closed spec fn view(&self) -> ApplyResourcesView {
        ApplyResourcesView {
            root: self.root@,
            full: self.full@,
            devices: self.devices,
            phase: self.phase@,
        }
    }
}

impl Manager {
    /// Starts setting the resources of the cgroup. `devices` tells whether
    /// device rules are supported.
    pub fn apply(&self, devices: bool) -> (r: ApplyResources)
        ensures
            r@ == ApplyResourcesView::start(*self, devices),
            r@.wf(),
    {
        ApplyResources {
            root: self.root_path().copy(),
            full: self.full_path().copy(),
            devices,
            phase: Phase::Controller(0),
        }
    }
}

/// Tells what a failure to set a controller is reported as.
fn report(c: ControllerType, e: SubsystemError) -> (r: V2ManagerError)
    requires
        !fails_at_file(c),
    ensures
        r@ == apply_error(c, e),
{
    match c {
        ControllerType::Cpu => V2ManagerError::CpuController(e),
        ControllerType::HugeTlb => V2ManagerError::HugeTlbController(e),
        ControllerType::Io => V2ManagerError::IoController(e),
        _ => V2ManagerError::MemoryController(e),
    }
}

impl ApplyResources {
    #[verifier::type_invariant]
    spec fn inv(self) -> bool {
        self@.wf()
    }

    /// Goes on from the pseudo controller with this index.
    fn pseudo(self, from: usize) -> (r: ApplyResources)
        requires
            from <= PSEUDO_CONTROLLER_TYPES@.len(),
        ensures
            r@ == self@.pseudo(from as int),
    {
        let mut j: usize = from;
        while j < PSEUDO_CONTROLLER_TYPES.len()
            invariant
                j <= PSEUDO_CONTROLLER_TYPES@.len(),
                self@.pseudo(j as int) == self@.pseudo(from as int),
            decreases PSEUDO_CONTROLLER_TYPES@.len() - j,
        {
            if PSEUDO_CONTROLLER_TYPES[j] == PseudoControllerType::Unified {
                return ApplyResources { phase: Phase::ListControllers(j), ..self };
            }
            j += 1;
        }
        ApplyResources { phase: Phase::Done(Ok(())), ..self }
    }

    /// Goes on with the controllers below this index set.
    fn controller(self, i: usize) -> (r: ApplyResources)
        ensures
            r@ == self@.controller(i as int),
    {
        if i < CONTROLLER_TYPES.len() {
            ApplyResources { phase: Phase::Controller(i), ..self }
        } else if self.devices {
            ApplyResources { phase: Phase::Devices, ..self }
        } else {
            self.pseudo(0)
        }
    }

    /// Ends with a failure.
    fn fail(self, e: V2ManagerError) -> (r: ApplyResources)
        ensures
            r@ == self@.failed(e@),
    {
        ApplyResources { phase: Phase::Done(Err(e)), ..self }
    }

    /// Names what is needed next; none when the setting of resources has ended.
    pub fn request(&self) -> (r: Option<Request>)
        ensures
            request::asked(r) == self@.asks(),
            self@.wf(),
    {
        proof {
            use_type_invariant(self);
        }
        match &self.phase {
            Phase::Controller(i) => Some(
                Request::Apply { controller: CONTROLLER_TYPES[*i], path: self.full.copy() },
            ),
            Phase::Devices => Some(Request::ApplyDevices { path: self.full.copy() }),
            Phase::ListControllers(_) => Some(
                Request::AvailableControllers { root: self.root.copy() },
            ),
            Phase::Unified(_, list) => Some(
                Request::ApplyUnified {
                    path: self.full.copy(),
                    available: slice_to_vec(list.as_slice()),
                },
            ),
            Phase::Done(_) => None,
        }
    }

    /// Goes on with the reply to the last request.
    pub fn resume(self, reply: Reply) -> (r: ApplyResources)
        ensures
            r@ == self@.after(reply@),
            r@.wf(),
    {
        proof {
            use_type_invariant(&self);
        }
        let r = match self.phase {
            Phase::Controller(i) => {
                let c: ControllerType = CONTROLLER_TYPES[i];
                let at_file = c == ControllerType::CpuSet || c == ControllerType::Pids;
                let here = ApplyResources { phase: Phase::Controller(i), ..self };
                match reply {
                    Reply::Wrapped(Ok(_)) if at_file => here.controller(i + 1),
                    Reply::Wrapped(Err(e)) if at_file => here.fail(V2ManagerError::WrappedIo(e)),
                    Reply::Subsystem(Ok(_)) if !at_file => here.controller(i + 1),
                    Reply::Subsystem(Err(e)) if !at_file => here.fail(report(c, e)),
                    _ => here,
                }
            },
            Phase::Devices => {
                let here = ApplyResources { phase: Phase::Devices, ..self };
                match reply {
                    Reply::Subsystem(Ok(_)) => here.pseudo(0),
                    Reply::Subsystem(Err(e)) => here.fail(V2ManagerError::DevicesController(e)),
                    _ => here,
                }
            },
            Phase::ListControllers(j) => {
                let here = ApplyResources { phase: Phase::ListControllers(j), ..self };
                match reply {
                    Reply::Controllers(Ok(list)) => ApplyResources {
                        phase: Phase::Unified(j, list),
                        ..here
                    },
                    Reply::Controllers(Err(e)) => here.fail(V2ManagerError::Util(e)),
                    _ => here,
                }
            },
            Phase::Unified(j, list) => {
                let here = ApplyResources { phase: Phase::Unified(j, list), ..self };
                match reply {
                    Reply::Subsystem(Ok(_)) => here.pseudo(j + 1),
                    Reply::Subsystem(Err(e)) => here.fail(V2ManagerError::UnifiedController(e)),
                    _ => here,
                }
            },
            Phase::Done(end) => ApplyResources { phase: Phase::Done(end), ..self },
        };
        proof {
            use_type_invariant(&r);
        }
        r
    }

    /// Tells how the setting of resources ended; none while it goes on.
    pub fn finish(self) -> (r: Option<Result<(), V2ManagerError>>)
        ensures
            match r {
                Some(end) => self@.result() == Some(error::outcome(end)),
                None => self@.result() is None,
            },
    {
        match self.phase {
            Phase::Done(r) => Some(r),
            _ => None,
        }
    }
}

} // verus!
