//! Switching controllers on for the children of a cgroup.

use vstd::prelude::*;

use crate::errno;
use crate::error;
use crate::error::{WrappedIoError, WrappedIoErrorView};
use crate::manager::Manager;
use crate::path;
use crate::path::UnixPath;
use crate::request::{Reply, ReplyView, Request, RequestView};

verus! {

/// The file of a cgroup that says which controllers its children have.
pub const CGROUP_SUBTREE_CONTROL: &'static str = "cgroup.subtree_control";

/// The file `name` of the cgroup at `dir`.
pub open spec fn file_in(dir: Seq<u8>, name: Seq<char>) -> Seq<u8> {
    path::join(dir, vstd::utf8::encode_utf8(name))
}

/// The file `name` of the cgroup at `dir`.
pub fn cgroup_file(dir: &UnixPath, name: &str) -> (file: UnixPath)
    ensures
        file@ == file_in(dir@, name@),
{
    dir.join(name.as_bytes())
}

/// Whether a failed write of one controller to a `cgroup.subtree_control` file
/// can be passed over in a cgroup that somebody else made. The error numbers:
///
///   * `EROFS`: the view of the hierarchy is read-only.
///   * `EACCES`: another user owns the cgroup.
///   * `ENOENT`: the cgroup itself does not have the controller.
///   * `EPERM`: a capability is missing.
///   * `EOPNOTSUPP`: the controller is not supported in this hierarchy.
///   * `EBUSY`: another manager is at the controller.
pub open spec fn tolerated(err: WrappedIoErrorView) -> bool {
    error::raw_os_error(err.inner()) matches Some(raw) && {
        ||| raw == errno::EROFS
        ||| raw == errno::EACCES
        ||| raw == errno::ENOENT
        ||| raw == errno::EPERM
        ||| raw == errno::EOPNOTSUPP
        ||| raw == errno::EBUSY
    }
}

impl Manager {
    /// Tells whether a failed write of one controller to a
    /// `cgroup.subtree_control` file is silently skipped when the caller does
    /// not own the cgroup.
    pub fn is_subtree_control_per_controller_failure(err: &WrappedIoError) -> (b: bool)
        ensures
            b == tolerated(err@),
    {
        match err.inner().errno() {
            Some(code) => code == errno::EROFS || code == errno::EACCES || code == errno::ENOENT
                || code == errno::EPERM || code == errno::eopnotsupp() || code == errno::EBUSY,
            None => false,
        }
    }

    /// Starts writing a list of controllers to the
    /// `{path}/cgroup.subtree_control` file.
    ///
    /// When `strict` is set, any failure for a controller is the result. When
    /// it is not, failures for which
    /// [`Self::is_subtree_control_per_controller_failure`] holds are skipped:
    /// the kernel rejects controllers that a cgroup does not have itself, and
    /// it is no error that another manager holds a cgroup.
    pub fn write_controllers(path: &UnixPath, controllers: &[String], strict: bool) -> (r:
        WriteControllers)
        ensures
            r@ == WriteControllersView::start(path@, strings(controllers@), strict),
            r@.wf(),
    {
        WriteControllers {
            path: path.copy(),
            controllers: copy_strings(controllers),
            strict,
            passed: 0,
            failure: None,
        }
    }
}

/// The model of [`WriteControllers`].
#[verifier::ext_equal]
pub struct WriteControllersView {
    /// The cgroup that is written to.
    pub path: Seq<u8>,
    /// What is to be written, in this order.
    pub controllers: Seq<Seq<char>>,
    /// Whether every failure counts.
    pub strict: bool,
    /// How many writes have been passed.
    pub passed: int,
    /// The failure that ended it.
    pub failure: Option<WrappedIoErrorView>,
}

impl WriteControllersView {
    /// Nothing written yet.
    pub open spec fn start(path: Seq<u8>, controllers: Seq<Seq<char>>, strict: bool) -> Self {
        WriteControllersView { path, controllers, strict, passed: 0, failure: None }
    }

    /// Whether the numbers fit.
    pub open spec fn wf(self) -> bool {
        0 <= self.passed <= self.controllers.len()
    }

    /// How it ended, if it has.
    pub open spec fn result(self) -> Option<Result<(), WrappedIoErrorView>> {
        match self.failure {
            Some(e) => Some(Err(e)),
            None => if self.passed >= self.controllers.len() {
                Some(Ok(()))
            } else {
                None
            },
        }
    }

    /// The write that comes next: one controller to the file of the cgroup.
    pub open spec fn asks(self) -> Option<RequestView> {
        if self.result() is Some {
            None
        } else {
            Some(
                RequestView::WriteCgroupFile {
                    path: file_in(self.path, CGROUP_SUBTREE_CONTROL@),
                    data: self.controllers[self.passed],
                },
            )
        }
    }

    /// Whether the operation goes on after a write that ended like this.
    pub open spec fn passes(self, r: Result<(), WrappedIoErrorView>) -> bool {
        match r {
            Ok(_) => true,
            Err(e) => !self.strict && tolerated(e),
        }
    }

    /// Where a reply leads to. One that answers no write changes nothing.
    pub open spec fn after(self, reply: ReplyView) -> Self {
        match reply {
            ReplyView::Wrapped(r) if self.result() is None => if self.passes(r) {
                WriteControllersView { passed: self.passed + 1, ..self }
            } else {
                WriteControllersView { failure: Some(r->Err_0), ..self }
            },
            _ => self,
        }
    }
}

/// The texts that a list of strings holds.
pub open spec fn strings(list: Seq<String>) -> Seq<Seq<char>> {
    list.map_values(|s: String| s@)
}

/// Copies a list of strings.
pub fn copy_strings(list: &[String]) -> (r: Vec<String>)
    ensures
        strings(r@) == strings(list@),
{
    let mut r: Vec<String> = Vec::new();
    let mut i: usize = 0;
    while i < list.len()
        invariant
            i <= list@.len(),
            strings(r@) == strings(list@).take(i as int),
        decreases list@.len() - i,
    {
        let ghost before = strings(r@);
        r.push(list[i].clone());
        proof {
            let item = list@[i as int]@;
            assert(strings(r@) =~= before.push(item));
            assert(strings(list@).take(i + 1) =~= strings(list@).take(i as int).push(item));
        }
        i += 1;
    }
    proof {
        assert(strings(list@).take(i as int) =~= strings(list@));
    }
    r
}

/// The controllers being written to the `cgroup.subtree_control` file of a
/// cgroup, one at a time, so that one that is not supported does not keep the
/// others out.
///
/// In strict mode every failure ends it. Otherwise failures that are expected
/// in a cgroup of another manager are passed over.
#[derive(Debug)]
pub struct WriteControllers {
    path: UnixPath,
    controllers: Vec<String>,
    strict: bool,
    passed: usize,
    failure: Option<WrappedIoError>,
}

impl View for WriteControllers {
    type V = WriteControllersView;

    closed spec fn view(&self) -> WriteControllersView {
        WriteControllersView {
            path: self.path@,
            controllers: strings(self.controllers@),
            strict: self.strict,
            passed: self.passed as int,
            failure: match self.failure {
                Some(e) => Some(e@),
                None => None,
            },
        }
    }
}

impl WriteControllers {
    #[verifier::type_invariant]
    spec fn inv(self) -> bool {
        self.passed <= self.controllers@.len()
    }

    /// Tells whether the operation has ended.
    pub fn has_ended(&self) -> (b: bool)
        ensures
            b == (self@.result() is Some),
    {
        self.failure.is_some() || self.passed >= self.controllers.len()
    }

    /// Names the next write; none when the operation has ended.
    pub fn request(&self) -> (r: Option<Request>)
        ensures
            crate::request::asked(r) == self@.asks(),
            self@.wf(),
    {
        proof {
            use_type_invariant(self);
        }
        if self.has_ended() {
            return None;
        }
        proof {
            assert(strings(self.controllers@)[self.passed as int] == self.controllers@[self.passed as int]@);
        }
        Some(
            Request::WriteCgroupFile {
                path: cgroup_file(&self.path, CGROUP_SUBTREE_CONTROL),
                data: self.controllers[self.passed].clone(),
            },
        )
    }

    /// Goes on with the reply to the last request.
    pub fn resume(self, reply: Reply) -> (r: WriteControllers)
        ensures
            r@ == self@.after(reply@),
            r@.wf(),
    {
        proof {
            use_type_invariant(&self);
        }
        let count: usize = self.controllers.len();
        if self.has_ended() {
            return self;
        }
        proof {
            assert(self.passed < count);
        }
        match reply {
            Reply::Wrapped(Ok(_)) => WriteControllers { passed: self.passed + 1, ..self },
            Reply::Wrapped(Err(e)) => {
                if !self.strict && Manager::is_subtree_control_per_controller_failure(&e) {
                    WriteControllers { passed: self.passed + 1, ..self }
                } else {
                    WriteControllers { failure: Some(e), ..self }
                }
            },
            _ => self,
        }
    }

    /// Tells how the operation ended; none while it goes on.
    pub fn finish(self) -> (r: Option<Result<(), WrappedIoError>>)
        ensures
            match r {
                Some(Ok(_)) => self@.result() == Some(Ok::<(), WrappedIoErrorView>(())),
                Some(Err(e)) => self@.result() == Some(Err::<(), WrappedIoErrorView>(e@)),
                None => self@.result() is None,
            },
    {
        proof {
            use_type_invariant(&self);
        }
        match self.failure {
            Some(e) => Some(Err(e)),
            None => if self.passed >= self.controllers.len() {
                Some(Ok(()))
            } else {
                None
            },
        }
    }
}

} // verus!
