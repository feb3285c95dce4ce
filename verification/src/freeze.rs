//! Freezing a cgroup, and listing its processes.

use vstd::prelude::*;

use crate::error;
use crate::error::{SubsystemError, V2ManagerError, V2ManagerErrorView, WrappedIoError};
use crate::manager::Manager;
use crate::path::UnixPath;

verus! {

/// Whether the processes of a cgroup run.
#[derive(Debug, Clone, Copy, PartialEq, Eq, Structural)]
pub enum FreezerState {
    Undefined,
    Frozen,
    Thawed,
}

/// What a controller is set to.
#[derive(Debug)]
pub struct ControllerOpt<R> {
    /// The resources that the cgroup may use.
    pub resources: R,
    /// Whether its processes run; none to leave that as it is.
    pub freezer_state: Option<FreezerState>,
    /// How likely its processes are killed when memory runs out; none to leave
    /// that as it is.
    pub oom_score_adj: Option<i32>,
    /// Whether they are not to be killed then.
    pub disable_oom_killer: bool,
}

/// The freezer is to be set in a cgroup.
#[derive(Debug)]
pub struct FreezeRequest<R> {
    /// What it is set to.
    pub opt: ControllerOpt<R>,
    /// The cgroup.
    pub path: UnixPath,
}

impl Manager {
    /// Tells how the freezer is to be set to bring the cgroup into `state`:
    /// with `resources`, which are to be the default ones, and nothing else.
    pub fn freeze<R>(&self, resources: R, state: FreezerState) -> (r: FreezeRequest<R>)
        ensures
            r.opt.resources == resources,
            r.opt.freezer_state == Some(state),
            r.opt.oom_score_adj is None,
            !r.opt.disable_oom_killer,
            r.path@ == self.full(),
    {
        FreezeRequest {
            opt: ControllerOpt {
                resources,
                freezer_state: Some(state),
                oom_score_adj: None,
                disable_oom_killer: false,
            },
            path: self.full_path().copy(),
        }
    }

    /// Tells how the freezing of a cgroup ended, from how setting the freezer did.
    pub fn frozen(reply: Result<(), SubsystemError>) -> (r: Result<(), V2ManagerError>)
        ensures
            error::outcome(r) == (match reply {
                Ok(_) => Ok(()),
                Err(e) => Err(V2ManagerErrorView::FreezerController(e)),
            }),
    {
        match reply {
            Ok(_) => Ok(()),
            Err(e) => Err(V2ManagerError::FreezerController(e)),
        }
    }

    /// Tells below which directory the processes of the cgroup are to be found.
    pub fn get_all_pids(&self) -> (p: UnixPath)
        ensures
            p@ == self.full(),
    {
        self.full_path().copy()
    }

    /// Gives the processes that were found there.
    pub fn all_pids(found: Result<Vec<i32>, WrappedIoError>) -> (r: Result<Vec<i32>, V2ManagerError>)
        ensures
            match found {
                Ok(pids) => r == Ok::<Vec<i32>, V2ManagerError>(pids),
                Err(e) => r == Err::<Vec<i32>, V2ManagerError>(V2ManagerError::WrappedIo(e)),
            },
    {
        match found {
            Ok(pids) => Ok(pids),
            Err(e) => Err(V2ManagerError::from(e)),
        }
    }
}

} // verus!
