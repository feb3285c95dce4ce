//! The manager of one cgroup.

use vstd::prelude::*;

use crate::error::{JoinSafelyError, V2ManagerError};
use crate::path;
use crate::path::UnixPath;

verus! {

/// Represents a management interface for a cgroup located at `{root_path}/{cgroup_path}`
///
/// This struct does not have ownership of the cgroup
#[derive(Debug)]
pub struct Manager {
    root_path: UnixPath,
    cgroup_path: UnixPath,
    full_path: UnixPath,
}

/// A manager of a cgroup, of whatever version.
#[derive(Debug)]
pub enum AnyCgroupManager {
    V2(Manager),
}

/// Puts `tail` under `base`, taking an absolute `tail` to start there.
pub fn join_safely(base: &UnixPath, tail: &UnixPath) -> (r: Result<UnixPath, JoinSafelyError>)
    ensures
        r is Ok,
        r->Ok_0@ == path::join_safely(base@, tail@),
{
    if !tail.is_absolute() {
        return Ok(base.join(tail.bytes.as_slice()));
    }
    match tail.strip_root() {
        Some(below) => Ok(base.join(below.bytes.as_slice())),
        None => Err(JoinSafelyError::StripPrefix { path: tail.copy() }),
    }
}

impl Manager {
    #[verifier::type_invariant]
    spec fn inv(self) -> bool {
        self.full_path@ == path::join_safely(self.root_path@, self.cgroup_path@)
    }

    /// The mount point of the hierarchy.
    pub closed spec fn root(self) -> Seq<u8> {
        self.root_path@
    }

    /// The path of the cgroup from there.
    pub closed spec fn cgroup(self) -> Seq<u8> {
        self.cgroup_path@
    }

    /// Where the cgroup is.
    pub open spec fn full(self) -> Seq<u8> {
        path::join_safely(self.root(), self.cgroup())
    }

    /// Constructs a new cgroup manager with root path being the mount point
    /// of a cgroup v2 fs and cgroup path being a relative path from the root
    pub fn new(root_path: UnixPath, cgroup_path: UnixPath) -> (r: Result<Manager, V2ManagerError>)
        ensures
            r is Ok,
            r->Ok_0.root() == root_path@,
            r->Ok_0.cgroup() == cgroup_path@,
            r->Ok_0.full() == path::join_safely(root_path@, cgroup_path@),
    {
        match join_safely(&root_path, &cgroup_path) {
            Ok(full_path) => Ok(Manager { root_path, cgroup_path, full_path }),
            Err(e) => Err(V2ManagerError::from(e)),
        }
    }

    /// Gives the mount point of the hierarchy.
    pub fn root_path(&self) -> (p: &UnixPath)
        ensures
            p@ == self.root(),
    {
        &self.root_path
    }

    /// Gives the path of the cgroup from the mount point.
    pub fn cgroup_path(&self) -> (p: &UnixPath)
        ensures
            p@ == self.cgroup(),
    {
        &self.cgroup_path
    }

    /// Gives the path of the cgroup.
    pub fn full_path(&self) -> (p: &UnixPath)
        ensures
            p@ == self.full(),
    {
        proof {
            use_type_invariant(self);
        }
        &self.full_path
    }

    /// Makes a manager of whatever version of this one.
    pub fn any(self) -> (r: AnyCgroupManager)
        ensures
            r == AnyCgroupManager::V2(self),
    {
        AnyCgroupManager::V2(self)
    }
}

} // verus!
