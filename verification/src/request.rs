//! What an operation asks of its surroundings, and what it is told.
//!
//! The operations on a cgroup alternate between decisions and work on the file
//! system. The decisions are made here: an operation in progress names the next
//! piece of work as a [`Request`], and goes on with the [`Reply`] to it.

use vstd::prelude::*;

use crate::controller_type::ControllerType;
use crate::error::{IoError, SubsystemError, WrappedIoError, WrappedIoErrorView};
use crate::path::UnixPath;

verus! {

/// A piece of work that an operation needs done.
#[derive(Debug)]
pub enum Request {
    /// Tell whether `path` exists. Answered by [`Reply::Exists`].
    Exists { path: UnixPath },
    /// Create the directory `path`. Answered by [`Reply::Io`].
    CreateDir { path: UnixPath },
    /// Read the metadata of `path`. Answered by [`Reply::Io`].
    Metadata { path: UnixPath },
    /// Write `data` to the existing file `path`, without truncating it.
    /// Answered by [`Reply::Wrapped`].
    WriteCgroupFile { path: UnixPath, data: String },
    /// Make `data` the whole content of the file `path`. Answered by [`Reply::Io`].
    WriteFile { path: UnixPath, data: String },
    /// Read the whole content of `path`. Answered by [`Reply::Text`].
    ReadToString { path: UnixPath },
    /// List the controllers that the hierarchy at `root` offers. Answered by
    /// [`Reply::Controllers`].
    AvailableControllers { root: UnixPath },
    /// Send SIGKILL to the process `pid`. Answered by [`Reply::Signalled`],
    /// whether or not it could be sent.
    Kill { pid: i32 },
    /// Remove the directory `path`, in up to `retries` attempts with at most
    /// `limit_millis` milliseconds from one to the next. Answered by
    /// [`Reply::Wrapped`].
    DeleteWithRetry { path: UnixPath, retries: u32, limit_millis: u64 },
    /// Set `controller` in the cgroup at `path`. Answered by [`Reply::Wrapped`]
    /// for the cpuset and the pids controller, by [`Reply::Subsystem`] for any other.
    Apply { controller: ControllerType, path: UnixPath },
    /// Set the device rules of the cgroup at `path`. Answered by [`Reply::Subsystem`].
    ApplyDevices { path: UnixPath },
    /// Set the unified resources of the cgroup at `path`, where the hierarchy
    /// offers the controllers `available`. Answered by [`Reply::Subsystem`].
    ApplyUnified { path: UnixPath, available: Vec<ControllerType> },
}

/// The model of a [`Request`].
pub enum RequestView {
    Exists { path: Seq<u8> },
    CreateDir { path: Seq<u8> },
    Metadata { path: Seq<u8> },
    WriteCgroupFile { path: Seq<u8>, data: Seq<char> },
    WriteFile { path: Seq<u8>, data: Seq<char> },
    ReadToString { path: Seq<u8> },
    AvailableControllers { root: Seq<u8> },
    Kill { pid: i32 },
    DeleteWithRetry { path: Seq<u8>, retries: u32, limit_millis: u64 },
    Apply { controller: ControllerType, path: Seq<u8> },
    ApplyDevices { path: Seq<u8> },
    ApplyUnified { path: Seq<u8>, available: Seq<ControllerType> },
}

impl View for Request {
    type V = RequestView;

    open spec fn view(&self) -> RequestView {
        match *self {
            Request::Exists { path } => RequestView::Exists { path: path@ },
            Request::CreateDir { path } => RequestView::CreateDir { path: path@ },
            Request::Metadata { path } => RequestView::Metadata { path: path@ },
            Request::WriteCgroupFile { path, data } => RequestView::WriteCgroupFile {
                path: path@,
                data: data@,
            },
            Request::WriteFile { path, data } => RequestView::WriteFile {
                path: path@,
                data: data@,
            },
            Request::ReadToString { path } => RequestView::ReadToString { path: path@ },
            Request::AvailableControllers { root } => RequestView::AvailableControllers {
                root: root@,
            },
            Request::Kill { pid } => RequestView::Kill { pid },
            Request::DeleteWithRetry { path, retries, limit_millis } => {
                RequestView::DeleteWithRetry { path: path@, retries, limit_millis }
            },
            Request::Apply { controller, path } => RequestView::Apply { controller, path: path@ },
            Request::ApplyDevices { path } => RequestView::ApplyDevices { path: path@ },
            Request::ApplyUnified { path, available } => RequestView::ApplyUnified {
                path: path@,
                available: available@,
            },
        }
    }
}

/// The model of what an operation asks next, if anything.
pub open spec fn asked(r: Option<Request>) -> Option<RequestView> {
    match r {
        Some(request) => Some(request@),
        None => None,
    }
}

/// What came of a request.
#[derive(Debug)]
pub enum Reply {
    /// Whether the path exists.
    Exists(bool),
    /// How the operation on the file ended.
    Io(Result<(), IoError>),
    /// How the operation on the file ended, with the file in the error.
    Wrapped(Result<(), WrappedIoError>),
    /// The content of the file.
    Text(Result<String, IoError>),
    /// The controllers that the hierarchy offers.
    Controllers(Result<Vec<ControllerType>, SubsystemError>),
    /// How setting the controller ended.
    Subsystem(Result<(), SubsystemError>),
    /// The signal was sent, or could not be.
    Signalled,
}

/// The model of a [`Reply`].
pub enum ReplyView {
    Exists(bool),
    Io(Result<(), IoError>),
    Wrapped(Result<(), WrappedIoErrorView>),
    Text(Result<Seq<char>, IoError>),
    Controllers(Result<Seq<ControllerType>, SubsystemError>),
    Subsystem(Result<(), SubsystemError>),
    Signalled,
}

impl View for Reply {
    type V = ReplyView;

    open spec fn view(&self) -> ReplyView {
        match *self {
            Reply::Exists(b) => ReplyView::Exists(b),
            Reply::Io(r) => ReplyView::Io(r),
            Reply::Wrapped(Ok(_)) => ReplyView::Wrapped(Ok(())),
            Reply::Wrapped(Err(e)) => ReplyView::Wrapped(Err(e@)),
            Reply::Text(Ok(t)) => ReplyView::Text(Ok(t@)),
            Reply::Text(Err(e)) => ReplyView::Text(Err(e)),
            Reply::Controllers(Ok(list)) => ReplyView::Controllers(Ok(list@)),
            Reply::Controllers(Err(e)) => ReplyView::Controllers(Err(e)),
            Reply::Subsystem(r) => ReplyView::Subsystem(r),
            Reply::Signalled => ReplyView::Signalled,
        }
    }
}

/// Whether a reply is of the kind that a request is answered by.
pub open spec fn answers(reply: ReplyView, request: RequestView) -> bool {
    match request {
        RequestView::Exists { .. } => reply is Exists,
        RequestView::CreateDir { .. } => reply is Io,
        RequestView::Metadata { .. } => reply is Io,
        RequestView::WriteCgroupFile { .. } => reply is Wrapped,
        RequestView::WriteFile { .. } => reply is Io,
        RequestView::ReadToString { .. } => reply is Text,
        RequestView::AvailableControllers { .. } => reply is Controllers,
        RequestView::Kill { .. } => reply is Signalled,
        RequestView::DeleteWithRetry { .. } => reply is Wrapped,
        RequestView::Apply { controller, .. } => if controller == ControllerType::CpuSet
            || controller == ControllerType::Pids {
            reply is Wrapped
        } else {
            reply is Subsystem
        },
        RequestView::ApplyDevices { .. } => reply is Subsystem,
        RequestView::ApplyUnified { .. } => reply is Subsystem,
    }
}

} // verus!
