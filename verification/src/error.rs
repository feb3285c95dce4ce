//! What can go wrong.

use vstd::prelude::*;

use crate::decimal::ParseIntError;
use crate::errno;
use crate::path::UnixPath;

verus! {

/// A failed operation on a file.
#[derive(Debug)]
pub enum IoError {
    /// The operating system refused it, with this error number.
    Os(i32),
    /// The file does not hold what it should.
    InvalidData(ParseIntError),
    /// Any other failure, by its description.
    Other(String),
}

/// The error number that the operating system gave, if the error is its own.
pub open spec fn raw_os_error(err: IoError) -> Option<i32> {
    match err {
        IoError::Os(raw) => Some(raw),
        _ => None,
    }
}

impl IoError {
    /// Gives the error number of the operating system, if the error is its own.
    pub fn raw_os_error(&self) -> (raw: Option<i32>)
        ensures
            raw == raw_os_error(*self),
    {
        match self {
            IoError::Os(raw) => Some(*raw),
            _ => None,
        }
    }

    /// Gives the error that the number of the operating system stands for, 0
    /// for an unknown one, if the error is its own.
    pub fn errno(&self) -> (code: Option<i32>)
        ensures
            code == (match raw_os_error(*self) {
                Some(raw) => Some(errno::known_errno(raw)),
                None => None,
            }),
    {
        match self.raw_os_error() {
            Some(raw) => Some(errno::errno_of(raw)),
            None => None,
        }
    }
}

/// A failed operation on a file, with the file and what was to be done.
#[derive(Debug)]
pub enum WrappedIoError {
    /// Opening `path` failed.
    Open { err: IoError, path: UnixPath },
    /// Writing `data` to `path` failed.
    Write { err: IoError, path: UnixPath, data: String },
    /// Reading `path` failed.
    Read { err: IoError, path: UnixPath },
    /// Creating the directory `path` failed.
    CreateDir { err: IoError, path: UnixPath },
    /// Something else failed at `path`.
    Other { err: IoError, path: UnixPath },
}

/// The model of a [`WrappedIoError`].
pub enum WrappedIoErrorView {
    Open { err: IoError, path: Seq<u8> },
    Write { err: IoError, path: Seq<u8>, data: Seq<char> },
    Read { err: IoError, path: Seq<u8> },
    CreateDir { err: IoError, path: Seq<u8> },
    Other { err: IoError, path: Seq<u8> },
}

impl View for WrappedIoError {
    type V = WrappedIoErrorView;

    open spec fn view(&self) -> WrappedIoErrorView {
        match *self {
            WrappedIoError::Open { err, path } => WrappedIoErrorView::Open { err, path: path@ },
            WrappedIoError::Write { err, path, data } => WrappedIoErrorView::Write {
                err,
                path: path@,
                data: data@,
            },
            WrappedIoError::Read { err, path } => WrappedIoErrorView::Read { err, path: path@ },
            WrappedIoError::CreateDir { err, path } => WrappedIoErrorView::CreateDir {
                err,
                path: path@,
            },
            WrappedIoError::Other { err, path } => WrappedIoErrorView::Other { err, path: path@ },
        }
    }
}

impl WrappedIoErrorView {
    /// The failure itself.
    pub open spec fn inner(self) -> IoError {
        match self {
            WrappedIoErrorView::Open { err, .. } => err,
            WrappedIoErrorView::Write { err, .. } => err,
            WrappedIoErrorView::Read { err, .. } => err,
            WrappedIoErrorView::CreateDir { err, .. } => err,
            WrappedIoErrorView::Other { err, .. } => err,
        }
    }
}

impl WrappedIoError {
    /// Gives the failure itself.
    pub fn inner(&self) -> (err: &IoError)
        ensures
            *err == self@.inner(),
    {
        match self {
            WrappedIoError::Open { err, .. } => err,
            WrappedIoError::Write { err, .. } => err,
            WrappedIoError::Read { err, .. } => err,
            WrappedIoError::CreateDir { err, .. } => err,
            WrappedIoError::Other { err, .. } => err,
        }
    }
}

/// Two paths could not be joined.
#[derive(Debug)]
pub enum JoinSafelyError {
    /// The root directory could not be taken off the front of `path`.
    StripPrefix { path: UnixPath },
}

impl View for JoinSafelyError {
    type V = Seq<u8>;

    open spec fn view(&self) -> Seq<u8> {
        match *self {
            JoinSafelyError::StripPrefix { path } => path@,
        }
    }
}

/// A failure inside one of the controllers, by its description.
#[derive(Debug)]
pub struct SubsystemError {
    pub message: String,
}

/// A failed operation on a cgroup.
#[derive(Debug)]
pub enum V2ManagerError {
    WrappedIo(WrappedIoError),
    JoinSafely(JoinSafelyError),
    Util(SubsystemError),
    CpuController(SubsystemError),
    CpuSetController(WrappedIoError),
    HugeTlbController(SubsystemError),
    IoController(SubsystemError),
    MemoryController(SubsystemError),
    PidsController(WrappedIoError),
    UnifiedController(SubsystemError),
    FreezerController(SubsystemError),
    DevicesController(SubsystemError),
    CpuStats(SubsystemError),
    HugeTlbStats(SubsystemError),
    PidsStats(SubsystemError),
    MemoryStats(SubsystemError),
    IoStats(SubsystemError),
}

/// The model of a [`V2ManagerError`].
pub enum V2ManagerErrorView {
    WrappedIo(WrappedIoErrorView),
    JoinSafely(Seq<u8>),
    Util(SubsystemError),
    CpuController(SubsystemError),
    CpuSetController(WrappedIoErrorView),
    HugeTlbController(SubsystemError),
    IoController(SubsystemError),
    MemoryController(SubsystemError),
    PidsController(WrappedIoErrorView),
    UnifiedController(SubsystemError),
    FreezerController(SubsystemError),
    DevicesController(SubsystemError),
    CpuStats(SubsystemError),
    HugeTlbStats(SubsystemError),
    PidsStats(SubsystemError),
    MemoryStats(SubsystemError),
    IoStats(SubsystemError),
}

impl View for V2ManagerError {
    type V = V2ManagerErrorView;

    open spec fn view(&self) -> V2ManagerErrorView {
        match *self {
            V2ManagerError::WrappedIo(e) => V2ManagerErrorView::WrappedIo(e@),
            V2ManagerError::JoinSafely(e) => V2ManagerErrorView::JoinSafely(e@),
            V2ManagerError::Util(e) => V2ManagerErrorView::Util(e),
            V2ManagerError::CpuController(e) => V2ManagerErrorView::CpuController(e),
            V2ManagerError::CpuSetController(e) => V2ManagerErrorView::CpuSetController(e@),
            V2ManagerError::HugeTlbController(e) => V2ManagerErrorView::HugeTlbController(e),
            V2ManagerError::IoController(e) => V2ManagerErrorView::IoController(e),
            V2ManagerError::MemoryController(e) => V2ManagerErrorView::MemoryController(e),
            V2ManagerError::PidsController(e) => V2ManagerErrorView::PidsController(e@),
            V2ManagerError::UnifiedController(e) => V2ManagerErrorView::UnifiedController(e),
            V2ManagerError::FreezerController(e) => V2ManagerErrorView::FreezerController(e),
            V2ManagerError::DevicesController(e) => V2ManagerErrorView::DevicesController(e),
            V2ManagerError::CpuStats(e) => V2ManagerErrorView::CpuStats(e),
            V2ManagerError::HugeTlbStats(e) => V2ManagerErrorView::HugeTlbStats(e),
            V2ManagerError::PidsStats(e) => V2ManagerErrorView::PidsStats(e),
            V2ManagerError::MemoryStats(e) => V2ManagerErrorView::MemoryStats(e),
            V2ManagerError::IoStats(e) => V2ManagerErrorView::IoStats(e),
        }
    }
}

impl From<WrappedIoError> for V2ManagerError {
    fn from(e: WrappedIoError) -> (r: V2ManagerError) {
        V2ManagerError::WrappedIo(e)
    }
}

impl vstd::std_specs::convert::FromSpecImpl<WrappedIoError> for V2ManagerError {
    open spec fn obeys_from_spec() -> bool {
        true
    }

    open spec fn from_spec(e: WrappedIoError) -> V2ManagerError {
        V2ManagerError::WrappedIo(e)
    }
}

impl From<JoinSafelyError> for V2ManagerError {
    fn from(e: JoinSafelyError) -> (r: V2ManagerError) {
        V2ManagerError::JoinSafely(e)
    }
}

impl vstd::std_specs::convert::FromSpecImpl<JoinSafelyError> for V2ManagerError {
    open spec fn obeys_from_spec() -> bool {
        true
    }

    open spec fn from_spec(e: JoinSafelyError) -> V2ManagerError {
        V2ManagerError::JoinSafely(e)
    }
}

/// The model of how an operation ended.
pub open spec fn outcome(r: Result<(), V2ManagerError>) -> Result<(), V2ManagerErrorView> {
    match r {
        Ok(_) => Ok(()),
        Err(e) => Err(e@),
    }
}

} // verus!
