//! Management of a cgroup of the unified (v2) hierarchy.
//!
//! A [`Manager`] stands for one cgroup. Its operations decide what is done to
//! the cgroup and in which order; the work on the file system is done by the
//! caller. An operation in progress names the next piece of work as a
//! [`Request`], and goes on with the [`Reply`] to it, until it tells how it
//! ended. The `*_laws` modules state what holds of whole operations, whatever
//! the replies are.

pub mod apply;
pub mod apply_laws;
pub mod controller_type;
pub mod create;
pub mod create_laws;
pub mod decimal;
pub mod errno;
pub mod error;
pub mod exchange_laws;
pub mod freeze;
pub mod manager;
pub mod model_laws;
pub mod name_laws;
pub mod path;
pub mod path_laws;
pub mod procs;
pub mod remove;
pub mod remove_laws;
pub mod request;
pub mod scan;
pub mod stats;
pub mod stats_laws;
pub mod subtree;
pub mod subtree_laws;
pub mod text_laws;

pub use crate::apply::ApplyResources;
pub use crate::controller_type::{ControllerType, PseudoControllerType};
pub use crate::create::CreateCgroup;
pub use crate::error::{IoError, JoinSafelyError, SubsystemError, V2ManagerError, WrappedIoError};
pub use crate::freeze::{ControllerOpt, FreezeRequest, FreezerState};
pub use crate::manager::{AnyCgroupManager, Manager};
pub use crate::path::UnixPath;
pub use crate::remove::{RemoveCgroup, CGROUP_KILL};
pub use crate::request::{Reply, Request};
pub use crate::stats::{GatherStats, Stats, StatsReply, StatsRequest};
pub use crate::subtree::WriteControllers;
