//! The models of values hold what the values do: nothing is left out of them.

use vstd::prelude::*;

use crate::errno;
use crate::error;
use crate::error::{
    IoError, JoinSafelyError, V2ManagerError, V2ManagerErrorView, WrappedIoError,
    WrappedIoErrorView,
};
use crate::path;
use crate::path::UnixPath;
use crate::request;
use crate::request::{Reply, ReplyView, Request, RequestView};
use crate::stats;
use crate::stats::StatsRequest;
use crate::subtree;

verus! {

/// A path is modelled by all of its bytes, a list of texts by all of its texts.
pub proof fn law_texts_are_whole(p: UnixPath, names: Seq<Vec<u8>>, list: Seq<String>)
    ensures
        p@ == p.bytes@,
        path::texts(names).len() == names.len(),
        forall|i: int| 0 <= i < names.len() ==> #[trigger] path::texts(names)[i] == names[i]@,
        subtree::strings(list).len() == list.len(),
        forall|i: int| 0 <= i < list.len() ==> #[trigger] subtree::strings(list)[i] == list[i]@,
{
}

/// A request is modelled by its kind and all that it holds.
pub proof fn law_requests_are_whole(r: Request)
    ensures
        request::asked(Some(r)) == Some(r@),
        request::asked(None) is None,
        match r {
            Request::Exists { path } => r@ == (RequestView::Exists { path: path.bytes@ }),
            Request::CreateDir { path } => r@ == (RequestView::CreateDir { path: path.bytes@ }),
            Request::Metadata { path } => r@ == (RequestView::Metadata { path: path.bytes@ }),
            Request::WriteCgroupFile { path, data } => r@ == (RequestView::WriteCgroupFile {
                path: path.bytes@,
                data: data@,
            }),
            Request::WriteFile { path, data } => r@ == (RequestView::WriteFile {
                path: path.bytes@,
                data: data@,
            }),
            Request::ReadToString { path } => r@ == (RequestView::ReadToString {
                path: path.bytes@,
            }),
            Request::AvailableControllers { root } => r@ == (RequestView::AvailableControllers {
                root: root.bytes@,
            }),
            Request::Kill { pid } => r@ == (RequestView::Kill { pid }),
            Request::DeleteWithRetry { path, retries, limit_millis } => r@ == (
            RequestView::DeleteWithRetry { path: path.bytes@, retries, limit_millis }),
            Request::Apply { controller, path } => r@ == (RequestView::Apply {
                controller,
                path: path.bytes@,
            }),
            Request::ApplyDevices { path } => r@ == (RequestView::ApplyDevices {
                path: path.bytes@,
            }),
            Request::ApplyUnified { path, available } => r@ == (RequestView::ApplyUnified {
                path: path.bytes@,
                available: available@,
            }),
        },
{
}

/// A reply is modelled by its kind and all that it holds.
pub proof fn law_replies_are_whole(r: Reply)
    ensures
        match r {
            Reply::Exists(b) => r@ == ReplyView::Exists(b),
            Reply::Io(end) => r@ == ReplyView::Io(end),
            Reply::Wrapped(Ok(_)) => r@ == ReplyView::Wrapped(Ok(())),
            Reply::Wrapped(Err(e)) => r@ == ReplyView::Wrapped(Err(e@)),
            Reply::Text(Ok(text)) => r@ == ReplyView::Text(Ok(text@)),
            Reply::Text(Err(e)) => r@ == ReplyView::Text(Err(e)),
            Reply::Controllers(Ok(list)) => r@ == ReplyView::Controllers(Ok(list@)),
            Reply::Controllers(Err(e)) => r@ == ReplyView::Controllers(Err(e)),
            Reply::Subsystem(end) => r@ == ReplyView::Subsystem(end),
            Reply::Signalled => r@ == ReplyView::Signalled,
        },
{
}

/// A failure at a file is modelled by its kind and all that it holds, and its
/// inner failure is the one that it holds, whatever its kind.
pub proof fn law_file_failures_are_whole(e: WrappedIoError)
    ensures
        match e {
            WrappedIoError::Open { err, path } => e@ == (WrappedIoErrorView::Open {
                err,
                path: path.bytes@,
            }) && e@.inner() == err,
            WrappedIoError::Write { err, path, data } => e@ == (WrappedIoErrorView::Write {
                err,
                path: path.bytes@,
                data: data@,
            }) && e@.inner() == err,
            WrappedIoError::Read { err, path } => e@ == (WrappedIoErrorView::Read {
                err,
                path: path.bytes@,
            }) && e@.inner() == err,
            WrappedIoError::CreateDir { err, path } => e@ == (WrappedIoErrorView::CreateDir {
                err,
                path: path.bytes@,
            }) && e@.inner() == err,
            WrappedIoError::Other { err, path } => e@ == (WrappedIoErrorView::Other {
                err,
                path: path.bytes@,
            }) && e@.inner() == err,
        },
{
}

/// A failed operation is modelled by its kind and all that it holds, and an
/// operation that went well by that.
pub proof fn law_failures_are_whole(e: V2ManagerError)
    ensures
        error::outcome(Ok(())) == Ok::<(), V2ManagerErrorView>(()),
        error::outcome(Err(e)) == Err::<(), V2ManagerErrorView>(e@),
        match e {
            V2ManagerError::WrappedIo(w) => e@ == V2ManagerErrorView::WrappedIo(w@),
            V2ManagerError::JoinSafely(JoinSafelyError::StripPrefix { path }) => e@
                == V2ManagerErrorView::JoinSafely(path.bytes@),
            V2ManagerError::Util(s) => e@ == V2ManagerErrorView::Util(s),
            V2ManagerError::CpuController(s) => e@ == V2ManagerErrorView::CpuController(s),
            V2ManagerError::CpuSetController(w) => e@ == V2ManagerErrorView::CpuSetController(w@),
            V2ManagerError::HugeTlbController(s) => e@ == V2ManagerErrorView::HugeTlbController(s),
            V2ManagerError::IoController(s) => e@ == V2ManagerErrorView::IoController(s),
            V2ManagerError::MemoryController(s) => e@ == V2ManagerErrorView::MemoryController(s),
            V2ManagerError::PidsController(w) => e@ == V2ManagerErrorView::PidsController(w@),
            V2ManagerError::UnifiedController(s) => e@ == V2ManagerErrorView::UnifiedController(s),
            V2ManagerError::FreezerController(s) => e@ == V2ManagerErrorView::FreezerController(s),
            V2ManagerError::DevicesController(s) => e@ == V2ManagerErrorView::DevicesController(s),
            V2ManagerError::CpuStats(s) => e@ == V2ManagerErrorView::CpuStats(s),
            V2ManagerError::HugeTlbStats(s) => e@ == V2ManagerErrorView::HugeTlbStats(s),
            V2ManagerError::PidsStats(s) => e@ == V2ManagerErrorView::PidsStats(s),
            V2ManagerError::MemoryStats(s) => e@ == V2ManagerErrorView::MemoryStats(s),
            V2ManagerError::IoStats(s) => e@ == V2ManagerErrorView::IoStats(s),
        },
{
}

/// What statistics are to be read is modelled by the controller and the path.
pub proof fn law_wanted_statistics_are_whole(r: StatsRequest)
    ensures
        stats::wanted(Some(r)) == Some((r.controller, r.path.bytes@)),
        stats::wanted(None) is None,
{
}

/// Only a failure of the operating system has an error number, and it is the
/// one that the system gave. The numbers that Linux defines an error for are
/// known, and no others.
pub proof fn law_error_numbers(err: IoError, raw: i32)
    ensures
        error::raw_os_error(err) == (match err {
            IoError::Os(n) => Some(n),
            IoError::InvalidData(_) => None,
            IoError::Other(_) => None,
        }),
        errno::known_errno(raw) == (if 1 <= raw <= 40 || 42 <= raw <= 57 || 59 <= raw <= 133 {
            raw
        } else {
            0
        }),
{
}

/// Whether a failure has one of the error numbers that are expected in a cgroup
/// of another manager: 30, 13, 2, 1, 95 and 16, which are `EROFS`, `EACCES`,
/// `ENOENT`, `EPERM`, `EOPNOTSUPP` and `EBUSY`.
pub open spec fn expected_elsewhere(err: IoError) -> bool {
    err matches IoError::Os(n) && (n == 30 || n == 13 || n == 2 || n == 1 || n == 95 || n == 16)
}

/// A failure at a file is tolerated by its error number alone: whether the file
/// could not be opened, written, read or made makes no difference, nor which
/// file it was.
pub proof fn law_tolerated_by_number_alone(err: IoError, file: Seq<u8>, text: Seq<char>)
    ensures
        subtree::tolerated(WrappedIoErrorView::Open { err, path: file }) <==> expected_elsewhere(
            err,
        ),
        subtree::tolerated(WrappedIoErrorView::Write { err, path: file, data: text })
            <==> expected_elsewhere(err),
        subtree::tolerated(WrappedIoErrorView::Read { err, path: file }) <==> expected_elsewhere(
            err,
        ),
        subtree::tolerated(WrappedIoErrorView::CreateDir { err, path: file })
            <==> expected_elsewhere(err),
        subtree::tolerated(WrappedIoErrorView::Other { err, path: file }) <==> expected_elsewhere(
            err,
        ),
{
}

} // verus!
