//! What holds of bringing a process into a cgroup, whatever the replies.

use vstd::prelude::*;

use crate::controller_type;
use crate::controller_type::ControllerType;
use crate::create;
use crate::create::{CreateCgroupView, CreatePhaseView, CGROUP_PROCS};
use crate::error::{V2ManagerErrorView, WrappedIoErrorView};
use crate::manager::Manager;
use crate::path;
use crate::path::SEPARATOR;
use crate::path_laws;
use crate::request;
use crate::request::{ReplyView, RequestView};
use crate::subtree;
use crate::subtree::CGROUP_SUBTREE_CONTROL;

verus! {

/// The operation after some replies.
pub open spec fn run(s: CreateCgroupView, replies: Seq<ReplyView>) -> CreateCgroupView
    decreases replies.len(),
{
    if replies.len() == 0 {
        s
    } else {
        run(s, replies.drop_last()).after(replies.last())
    }
}

/// The operation at its start: `adding` a process, or creating the cgroup for it.
pub open spec fn begin(m: Manager, pid: i32, adding: bool) -> CreateCgroupView {
    if adding {
        CreateCgroupView::start_add(m, pid)
    } else {
        CreateCgroupView::start(m, pid)
    }
}

/// The operation with the first `i` replies, which asks for the next one.
pub open spec fn before(
    m: Manager,
    pid: i32,
    adding: bool,
    replies: Seq<ReplyView>,
    i: int,
) -> CreateCgroupView {
    run(begin(m, pid, adding), replies.take(i))
}

/// The directory that the first `k` names of the cgroup lead to.
pub open spec fn directory(m: Manager, k: int) -> Seq<u8> {
    path::walk(m.root(), path::names(m.cgroup()), k)
}

/// How many directories lie on the way to the cgroup, itself included.
pub open spec fn depth(m: Manager) -> int {
    path::names(m.cgroup()).len() as int
}

/// Whether directory `k` is the mount point itself, by a `.` in front of the path.
pub open spec fn is_root(m: Manager, k: int) -> bool {
    path::names(m.cgroup())[k - 1] == path::dot()
}

/// The operation stays with its manager and its process.
proof fn lemma_belongs(m: Manager, pid: i32, adding: bool, replies: Seq<ReplyView>)
    ensures
        ({
            let s = run(begin(m, pid, adding), replies);
            &&& s.wf()
            &&& s.root == m.root()
            &&& s.full == m.full()
            &&& s.steps == path::names(m.cgroup())
            &&& s.pid == pid
        }),
    decreases replies.len(),
{
    if replies.len() > 0 {
        lemma_belongs(m, pid, adding, replies.drop_last());
    }
}

/// What the operation may ask for: the controllers that there are, whether a
/// directory on the way is there, that one be made and looked at, that
/// controllers be switched on in one on the way that is neither the last nor
/// the mount point, and that the process be put into the cgroup.
pub open spec fn within(m: Manager, pid: i32, request: RequestView) -> bool {
    ||| request == RequestView::Exists { path: m.full() }
    ||| request == RequestView::AvailableControllers { root: m.root() }
    ||| exists|k: int|
        {
            &&& 1 <= k <= depth(m)
            &&& {
                let dir = #[trigger] directory(m, k);
                ||| request == RequestView::Exists { path: dir }
                ||| request == RequestView::CreateDir { path: dir }
                ||| request == RequestView::Metadata { path: dir }
                ||| k < depth(m) && !is_root(m, k) && request is WriteCgroupFile
                    && request->WriteCgroupFile_path == subtree::file_in(
                    dir,
                    CGROUP_SUBTREE_CONTROL@,
                )
            }
        }
    ||| request == CreateCgroupView::start(m, pid).attachment()
}

/// Nothing but that is ever asked for.
pub proof fn law_requests_stay_within(m: Manager, pid: i32, adding: bool, replies: Seq<ReplyView>)
    ensures
        run(begin(m, pid, adding), replies).asks() matches Some(request) ==> within(
            m,
            pid,
            request,
        ),
{
    lemma_belongs(m, pid, adding, replies);
    let s = run(begin(m, pid, adding), replies);
    if s.at_directory() {
        assert(s.current() == directory(m, s.index + 1));
    }
}

/// The names of the files that are written to are plain names, and different.
proof fn lemma_file_names()
    ensures
        ({
            let control = vstd::utf8::encode_utf8(CGROUP_SUBTREE_CONTROL@);
            let procs = vstd::utf8::encode_utf8(CGROUP_PROCS@);
            &&& !path::is_blank(control)
            &&& forall|j: int| 0 <= j < control.len() ==> control[j] != SEPARATOR
            &&& !path::is_blank(procs)
            &&& forall|j: int| 0 <= j < procs.len() ==> procs[j] != SEPARATOR
            &&& control != procs
        }),
{
    reveal_strlit("cgroup.subtree_control");
    reveal_strlit("cgroup.procs");
    vstd::utf8::is_ascii_chars_encode_utf8(CGROUP_SUBTREE_CONTROL@);
    vstd::utf8::is_ascii_chars_encode_utf8(CGROUP_PROCS@);
    let control = vstd::utf8::encode_utf8(CGROUP_SUBTREE_CONTROL@);
    let procs = vstd::utf8::encode_utf8(CGROUP_PROCS@);
    assert(control.len() == 22);
    assert(procs.len() == 12);
    assert forall|j: int| 0 <= j < control.len() implies control[j] != SEPARATOR by {
        assert(CGROUP_SUBTREE_CONTROL@[j] != '/');
    }
    assert forall|j: int| 0 <= j < procs.len() implies procs[j] != SEPARATOR by {
        assert(CGROUP_PROCS@[j] != '/');
    }
}

/// The mount point itself never gets controllers switched on: no request
/// writes to a file that by its text is the `cgroup.subtree_control` file there.
/// A `..` in the path of the cgroup is a name like any other here.
pub proof fn law_root_is_left_alone(m: Manager, pid: i32, adding: bool, replies: Seq<ReplyView>)
    ensures
        run(begin(m, pid, adding), replies).asks() matches Some(
            RequestView::WriteCgroupFile { path: file, .. },
        ) ==> !path::same_text(file, subtree::file_in(m.root(), CGROUP_SUBTREE_CONTROL@)),
{
    let control = vstd::utf8::encode_utf8(CGROUP_SUBTREE_CONTROL@);
    let procs = vstd::utf8::encode_utf8(CGROUP_PROCS@);
    law_requests_stay_within(m, pid, adding, replies);
    lemma_file_names();
    path_laws::lemma_pieces_of_file(m.root(), control);
    path_laws::lemma_pieces_of_file(m.full(), procs);
    match run(begin(m, pid, adding), replies).asks() {
        Some(RequestView::WriteCgroupFile { path: file, data }) => {
            if file == subtree::file_in(m.full(), CGROUP_PROCS@) {
                assert(path::pieces(file).last() == procs);
                assert(path::pieces(path::join(m.root(), control)).last() == control);
            } else {
                let k = choose|k: int|
                    1 <= k < depth(m) && !is_root(m, k) && file == subtree::file_in(
                        #[trigger] directory(m, k),
                        CGROUP_SUBTREE_CONTROL@,
                    );
                path_laws::law_walk_goes_down(m.root(), m.cgroup(), k);
                path_laws::lemma_pieces_of_file(directory(m, k), control);
                assert(path_laws::telling(m.cgroup(), k).len() > 0);
                assert(path::pieces(file).len() > path::pieces(m.root()).len() + 1);
            }
        },
        _ => {},
    }
}

/// The cgroup of the process never gets controllers switched on for what is
/// below it: no request writes to a file that by its text is the
/// `cgroup.subtree_control` file there. A `..` in the path of the cgroup is a
/// name like any other here.
pub proof fn law_last_directory_is_left_alone(
    m: Manager,
    pid: i32,
    adding: bool,
    replies: Seq<ReplyView>,
)
    ensures
        run(begin(m, pid, adding), replies).asks() matches Some(
            RequestView::WriteCgroupFile { path: file, .. },
        ) ==> !path::same_text(file, subtree::file_in(m.full(), CGROUP_SUBTREE_CONTROL@)),
{
    let control = vstd::utf8::encode_utf8(CGROUP_SUBTREE_CONTROL@);
    let procs = vstd::utf8::encode_utf8(CGROUP_PROCS@);
    law_requests_stay_within(m, pid, adding, replies);
    lemma_file_names();
    path_laws::lemma_pieces_of_file(m.full(), control);
    path_laws::lemma_pieces_of_file(m.full(), procs);
    match run(begin(m, pid, adding), replies).asks() {
        Some(RequestView::WriteCgroupFile { path: file, data }) => {
            if file == subtree::file_in(m.full(), CGROUP_PROCS@) {
                assert(path::pieces(file).last() == procs);
                assert(path::pieces(path::join(m.full(), control)).last() == control);
            } else {
                let k = choose|k: int|
                    1 <= k < depth(m) && !is_root(m, k) && file == subtree::file_in(
                        #[trigger] directory(m, k),
                        CGROUP_SUBTREE_CONTROL@,
                    );
                path_laws::law_walk_goes_down(m.root(), m.cgroup(), k);
                path_laws::law_join_safely_adds_pieces(m.root(), m.cgroup());
                path_laws::lemma_pieces_of_file(directory(m, k), control);
                assert(path_laws::telling(m.cgroup(), k).len() < path::pieces(m.cgroup()).len());
                assert(path::pieces(file).len() < path::pieces(m.full()).len() + 1);
            }
        },
        _ => {},
    }
}

/// Whether one of the replies tells that directory `k` is there: it was found,
/// or made.
pub open spec fn in_place(
    m: Manager,
    pid: i32,
    adding: bool,
    replies: Seq<ReplyView>,
    k: int,
) -> bool {
    ||| found(m, pid, adding, replies, k)
    ||| made(m, pid, adding, replies, k)
}

/// Whether the reply with this index tells that directory `k` was there before.
pub open spec fn found_at(
    m: Manager,
    pid: i32,
    adding: bool,
    replies: Seq<ReplyView>,
    k: int,
    i: int,
) -> bool {
    let s = before(m, pid, adding, replies, i);
    &&& 0 <= i < replies.len()
    &&& s.phase is Probe
    &&& s.asks() == Some(RequestView::Exists { path: directory(m, k) })
    &&& s.index + 1 == k
    &&& replies[i] == ReplyView::Exists(true)
}

/// Whether one of the replies tells that directory `k` was there before.
pub open spec fn found(
    m: Manager,
    pid: i32,
    adding: bool,
    replies: Seq<ReplyView>,
    k: int,
) -> bool {
    exists|i: int| #[trigger] found_at(m, pid, adding, replies, k, i)
}

/// Whether the reply with this index tells that the operation made directory `k`.
pub open spec fn made_at(
    m: Manager,
    pid: i32,
    adding: bool,
    replies: Seq<ReplyView>,
    k: int,
    i: int,
) -> bool {
    let s = before(m, pid, adding, replies, i);
    &&& 0 <= i < replies.len()
    &&& s.asks() == Some(RequestView::CreateDir { path: directory(m, k) })
    &&& s.index + 1 == k
    &&& replies[i] matches ReplyView::Io(Ok(_))
}

/// Whether one of the replies tells that the operation made directory `k`.
pub open spec fn made(
    m: Manager,
    pid: i32,
    adding: bool,
    replies: Seq<ReplyView>,
    k: int,
) -> bool {
    exists|i: int| #[trigger] made_at(m, pid, adding, replies, k, i)
}

/// The replies before the last one say the same without it.
proof fn lemma_front(m: Manager, pid: i32, adding: bool, replies: Seq<ReplyView>, i: int)
    requires
        0 <= i < replies.len(),
    ensures
        before(m, pid, adding, replies, replies.len() - 1) == run(
            begin(m, pid, adding),
            replies.drop_last(),
        ),
        i < replies.len() - 1 ==> before(m, pid, adding, replies.drop_last(), i) == before(
            m,
            pid,
            adding,
            replies,
            i,
        ) && replies.drop_last()[i] == replies[i],
{
    assert(replies.take(replies.len() - 1) =~= replies.drop_last());
    if i < replies.len() - 1 {
        assert(replies.drop_last().take(i) =~= replies.take(i));
    }
}

/// What the replies told stays told with one more.
proof fn lemma_told_stays(
    m: Manager,
    pid: i32,
    adding: bool,
    replies: Seq<ReplyView>,
    k: int,
)
    requires
        replies.len() > 0,
    ensures
        found(m, pid, adding, replies.drop_last(), k) ==> found(m, pid, adding, replies, k),
        made(m, pid, adding, replies.drop_last(), k) ==> made(m, pid, adding, replies, k),
{
    let front = replies.drop_last();
    if found(m, pid, adding, front, k) {
        let i = choose|i: int| #[trigger] found_at(m, pid, adding, front, k, i);
        lemma_front(m, pid, adding, replies, i);
        assert(found_at(m, pid, adding, replies, k, i));
    }
    if made(m, pid, adding, front, k) {
        let i = choose|i: int| #[trigger] made_at(m, pid, adding, front, k, i);
        lemma_front(m, pid, adding, replies, i);
        assert(made_at(m, pid, adding, replies, k, i));
    }
}

/// Whether the operation is behind the directories, and nothing has failed.
pub open spec fn arrived(s: CreateCgroupView) -> bool {
    s.phase is Attach || s.result() == Some(Ok::<(), V2ManagerErrorView>(()))
}

/// Whether the operation went through the directories before the current one,
/// and how the current one came to be there.
spec fn told(m: Manager, pid: i32, adding: bool, replies: Seq<ReplyView>) -> bool {
    let s = run(begin(m, pid, adding), replies);
    &&& s.at_directory() || arrived(s) ==> forall|k: int|
        1 <= k <= s.index ==> #[trigger] in_place(m, pid, adding, replies, k)
    &&& arrived(s) && !adding ==> s.index == depth(m)
    &&& s.phase is ProbeFull || s.phase is ListControllers ==> s.index == 0
    &&& s.phase is ProbeFull ==> adding
    &&& s.phase is Inspect ==> made(m, pid, adding, replies, s.index + 1)
    &&& s.phase matches CreatePhaseView::Enable(w) ==> if w.strict {
        made(m, pid, adding, replies, s.index + 1)
    } else {
        found(m, pid, adding, replies, s.index + 1)
    }
}

/// The operation tells all that.
proof fn lemma_told(m: Manager, pid: i32, adding: bool, replies: Seq<ReplyView>)
    ensures
        told(m, pid, adding, replies),
    decreases replies.len(),
{
    if replies.len() > 0 {
        let front = replies.drop_last();
        let n = front.len() as int;
        let t = run(begin(m, pid, adding), front);
        let s = run(begin(m, pid, adding), replies);
        lemma_told(m, pid, adding, front);
        lemma_belongs(m, pid, adding, front);
        lemma_front(m, pid, adding, replies, n);
        assert forall|k: int| in_place(m, pid, adding, front, k) implies #[trigger] in_place(
            m,
            pid,
            adding,
            replies,
            k,
        ) by {
            lemma_told_stays(m, pid, adding, replies, k);
        }
        lemma_told_stays(m, pid, adding, replies, t.index + 1);
        if t.at_directory() {
            assert(t.current() == directory(m, t.index + 1));
        }
        if t.phase is Probe && replies[n] == ReplyView::Exists(true) {
            assert(found_at(m, pid, adding, replies, t.index + 1, n));
        }
        if t.phase is MakeDir && (replies[n] matches ReplyView::Io(Ok(_))) {
            assert(made_at(m, pid, adding, replies, t.index + 1, n));
        }
        if (s.at_directory() || arrived(s)) && (t.at_directory() || arrived(t)) {
            assert forall|k: int| 1 <= k <= s.index implies #[trigger] in_place(
                m,
                pid,
                adding,
                replies,
                k,
            ) by {
                if k <= t.index {
                    assert(in_place(m, pid, adding, front, k));
                }
            }
        }
    }
}

/// What more is told with one more reply is what that reply tells.
proof fn lemma_told_new(
    m: Manager,
    pid: i32,
    adding: bool,
    replies: Seq<ReplyView>,
    k: int,
)
    requires
        replies.len() > 0,
    ensures
        ({
            let front = replies.drop_last();
            let t = run(begin(m, pid, adding), front);
            &&& found(m, pid, adding, replies, k) && !found(m, pid, adding, front, k) ==> {
                &&& t.phase is Probe
                &&& t.index + 1 == k
                &&& replies.last() == ReplyView::Exists(true)
            }
            &&& made(m, pid, adding, replies, k) && !made(m, pid, adding, front, k) ==> {
                &&& t.asks() matches Some(RequestView::CreateDir { .. })
                &&& t.index + 1 == k
                &&& replies.last() matches ReplyView::Io(Ok(_))
            }
        }),
{
    let front = replies.drop_last();
    let n = front.len() as int;
    if found(m, pid, adding, replies, k) && !found(m, pid, adding, front, k) {
        let i = choose|i: int| #[trigger] found_at(m, pid, adding, replies, k, i);
        lemma_front(m, pid, adding, replies, i);
        assert(i < n ==> found_at(m, pid, adding, front, k, i));
    }
    if made(m, pid, adding, replies, k) && !made(m, pid, adding, front, k) {
        let i = choose|i: int| #[trigger] made_at(m, pid, adding, replies, k, i);
        lemma_front(m, pid, adding, replies, i);
        assert(i < n ==> made_at(m, pid, adding, front, k, i));
    }
}

/// A directory was found or made, not both, and the operation is at or behind it.
proof fn lemma_told_once(
    m: Manager,
    pid: i32,
    adding: bool,
    replies: Seq<ReplyView>,
    k: int,
)
    ensures
        ({
            let s = run(begin(m, pid, adding), replies);
            &&& !(found(m, pid, adding, replies, k) && made(m, pid, adding, replies, k))
            &&& found(m, pid, adding, replies, k) ==> {
                ||| s.index + 1 > k
                ||| s.index + 1 == k && (s.phase is Done || (s.phase matches CreatePhaseView::Enable(
                    w,
                ) && !w.strict))
            }
            &&& made(m, pid, adding, replies, k) ==> {
                ||| s.index + 1 > k
                ||| s.index + 1 == k && (s.phase is Done || s.phase is Inspect || (s.phase matches
                    CreatePhaseView::Enable(w) && w.strict))
            }
            &&& s.phase is ProbeFull || s.phase is ListControllers ==> s.index == 0
            &&& s.index >= 0
        }),
    decreases replies.len(),
{
    if replies.len() > 0 {
        lemma_told_once(m, pid, adding, replies.drop_last(), k);
        lemma_told_new(m, pid, adding, replies, k);
        lemma_told_stays(m, pid, adding, replies, k);
        lemma_belongs(m, pid, adding, replies.drop_last());
    }
}

/// Directories come to be from the top down: when the operation is at one,
/// each one above it was found or was made.
pub proof fn law_parents_come_first(
    m: Manager,
    pid: i32,
    adding: bool,
    replies: Seq<ReplyView>,
    k: int,
)
    requires
        run(begin(m, pid, adding), replies).at_directory(),
        1 <= k <= run(begin(m, pid, adding), replies).index,
    ensures
        in_place(m, pid, adding, replies, k),
{
    lemma_told(m, pid, adding, replies);
}

/// A process is put into a cgroup that is created only when each directory on
/// the way, the cgroup itself included, was found or was made.
pub proof fn law_whole_path_is_in_place(m: Manager, pid: i32, replies: Seq<ReplyView>, k: int)
    requires
        arrived(run(CreateCgroupView::start(m, pid), replies)),
        1 <= k <= depth(m),
    ensures
        in_place(m, pid, false, replies, k),
{
    lemma_told(m, pid, false, replies);
    assert(begin(m, pid, false) == CreateCgroupView::start(m, pid));
}

/// Writing controllers is strict in the directories that the operation made,
/// and lenient in those that were there before.
pub proof fn law_strict_where_made(
    m: Manager,
    pid: i32,
    adding: bool,
    replies: Seq<ReplyView>,
)
    ensures
        run(begin(m, pid, adding), replies).phase matches CreatePhaseView::Enable(w) ==> {
            let k = run(begin(m, pid, adding), replies).index + 1;
            &&& w.path == directory(m, k)
            &&& w.strict <==> made(m, pid, adding, replies, k)
            &&& !w.strict <==> found(m, pid, adding, replies, k)
        },
{
    lemma_told(m, pid, adding, replies);
    lemma_told_once(m, pid, adding, replies, run(begin(m, pid, adding), replies).index + 1);
    lemma_belongs(m, pid, adding, replies);
}

/// Whether the reply with this index tells that the process id was written to
/// the `cgroup.procs` file of the cgroup, and that the write went well.
pub open spec fn attached_at(
    m: Manager,
    pid: i32,
    adding: bool,
    replies: Seq<ReplyView>,
    i: int,
) -> bool {
    &&& 0 <= i < replies.len()
    &&& before(m, pid, adding, replies, i).asks() == Some(
        CreateCgroupView::start(m, pid).attachment(),
    )
    &&& replies[i] matches ReplyView::Wrapped(Ok(_))
}

/// A good end means that the process id was written to the `cgroup.procs` file
/// of the cgroup, and that the write went well.
pub proof fn law_success_means_attached(
    m: Manager,
    pid: i32,
    adding: bool,
    replies: Seq<ReplyView>,
)
    requires
        run(begin(m, pid, adding), replies).result() == Some(Ok::<(), V2ManagerErrorView>(())),
    ensures
        exists|i: int| #[trigger] attached_at(m, pid, adding, replies, i),
    decreases replies.len(),
{
    let front = replies.drop_last();
    let n = front.len() as int;
    lemma_belongs(m, pid, adding, front);
    if run(begin(m, pid, adding), front).result() is Some {
        law_success_means_attached(m, pid, adding, front);
        let i = choose|i: int| #[trigger] attached_at(m, pid, adding, front, i);
        lemma_front(m, pid, adding, replies, i);
        assert(attached_at(m, pid, adding, replies, i));
    } else {
        lemma_front(m, pid, adding, replies, n);
        assert(attached_at(m, pid, adding, replies, n));
    }
}

/// An end is final: it is kept whatever is replied.
pub proof fn law_end_is_final(s: CreateCgroupView, replies: Seq<ReplyView>)
    requires
        s.result() is Some,
    ensures
        run(s, replies) == s,
        s.asks() is None,
    decreases replies.len(),
{
    if replies.len() > 0 {
        law_end_is_final(s, replies.drop_last());
    }
}

/// As long as there is no end, something is asked for, and a reply that does
/// not answer it changes nothing.
pub proof fn law_waits_for_answers(
    m: Manager,
    pid: i32,
    adding: bool,
    replies: Seq<ReplyView>,
    reply: ReplyView,
)
    ensures
        ({
            let s = run(begin(m, pid, adding), replies);
            &&& s.asks() is None <==> s.result() is Some
            &&& s.asks() matches Some(request) ==> !request::answers(reply, request) ==> s.after(
                reply,
            ) == s
        }),
{
    lemma_belongs(m, pid, adding, replies);
}

/// How far the operation is from its end: first by what it has to find out
/// before it starts, then by the replies that it needs at most.
pub open spec fn stage(s: CreateCgroupView) -> nat {
    match s.phase {
        CreatePhaseView::ProbeFull => 2,
        CreatePhaseView::ListControllers => 1,
        _ => 0,
    }
}

/// The replies that the operation needs at most, once it knows the controllers.
pub open spec fn left(s: CreateCgroupView) -> int {
    let each = s.controllers.len() + 3;
    let here = 1 + (s.steps.len() - s.index) * each;
    match s.phase {
        CreatePhaseView::Probe => here,
        CreatePhaseView::MakeDir => here - 1,
        CreatePhaseView::Inspect => here - 2,
        CreatePhaseView::Enable(w) => here - 3 - w.passed,
        CreatePhaseView::Attach => 1,
        _ => 0,
    }
}

/// Every answer brings the operation closer to its end, so it ends.
pub proof fn law_answers_lead_to_the_end(
    m: Manager,
    pid: i32,
    adding: bool,
    replies: Seq<ReplyView>,
    reply: ReplyView,
)
    requires
        run(begin(m, pid, adding), replies).asks() is Some,
        request::answers(reply, run(begin(m, pid, adding), replies).asks()->0),
    ensures
        ({
            let s = run(begin(m, pid, adding), replies);
            let t = s.after(reply);
            stage(t) < stage(s) || (stage(t) == stage(s) && 0 <= left(t) < left(s))
        }),
{
    lemma_belongs(m, pid, adding, replies);
    let s = run(begin(m, pid, adding), replies);
    let each = (s.controllers.len() + 3) as int;
    let rest = s.steps.len() - s.index;
    if s.at_directory() {
        assert(rest * each == (rest - 1) * each + each) by (nonlinear_arith);
        assert((rest - 1) * each >= 0) by (nonlinear_arith)
            requires
                rest >= 1,
                each >= 0,
        ;
    }
}

/// A failed write of a controller in a directory that the operation made is
/// its result. In one that was there before, a failure that is tolerated does
/// not end it, and any other is its result.
pub proof fn law_failures_count_by_owner(
    m: Manager,
    pid: i32,
    adding: bool,
    replies: Seq<ReplyView>,
    e: WrappedIoErrorView,
)
    requires
        run(begin(m, pid, adding), replies).phase is Enable,
    ensures
        ({
            let s = run(begin(m, pid, adding), replies);
            let t = s.after(ReplyView::Wrapped(Err(e)));
            let k = s.index + 1;
            &&& made(m, pid, adding, replies, k) || found(m, pid, adding, replies, k)
            &&& made(m, pid, adding, replies, k) || !subtree::tolerated(e) ==> t.result() == Some(
                Err::<(), V2ManagerErrorView>(V2ManagerErrorView::WrappedIo(e)),
            )
            &&& found(m, pid, adding, replies, k) && subtree::tolerated(e) ==> t.result() is None
        }),
{
    law_strict_where_made(m, pid, adding, replies);
    lemma_belongs(m, pid, adding, replies);
}

/// What switches on the controller with this index of those that a reply lists.
pub open spec fn switch(reply: ReplyView, c: int) -> Option<Seq<char>> {
    match reply {
        ReplyView::Controllers(Ok(list)) => if 0 <= c < list.len() {
            Some(controller_type::switch_on(list[c]))
        } else {
            None
        },
        _ => None,
    }
}

/// Whether one of the replies lists a controller that `data` switches on.
pub open spec fn offered(replies: Seq<ReplyView>, data: Seq<char>) -> bool {
    exists|i: int, c: int|
        0 <= i < replies.len() && #[trigger] switch(replies[i], c) == Some(data)
}

/// What the operation knows of controllers, it was told.
proof fn lemma_offered(m: Manager, pid: i32, adding: bool, replies: Seq<ReplyView>)
    ensures
        forall|j: int|
            0 <= j < run(begin(m, pid, adding), replies).controllers.len() ==> offered(
                replies,
                #[trigger] run(begin(m, pid, adding), replies).controllers[j],
            ),
    decreases replies.len(),
{
    if replies.len() > 0 {
        let front = replies.drop_last();
        let n = front.len() as int;
        let t = run(begin(m, pid, adding), front);
        let s = run(begin(m, pid, adding), replies);
        lemma_offered(m, pid, adding, front);
        assert forall|j: int| 0 <= j < s.controllers.len() implies offered(
            replies,
            #[trigger] s.controllers[j],
        ) by {
            if s.controllers == t.controllers {
                assert(offered(front, t.controllers[j]));
                let (i, c) = choose|i: int, c: int|
                    0 <= i < front.len() && #[trigger] switch(front[i], c) == Some(
                        t.controllers[j],
                    );
                assert(switch(replies[i], c) == Some(s.controllers[j]));
            } else {
                assert(switch(replies[n], j) == Some(s.controllers[j]));
            }
        }
    }
}

/// Only controllers that the hierarchy offers are switched on: what is written
/// to a file that is not the list of processes is `+` and the name of one.
pub proof fn law_only_offered_controllers(
    m: Manager,
    pid: i32,
    adding: bool,
    replies: Seq<ReplyView>,
)
    ensures
        run(begin(m, pid, adding), replies).asks() matches Some(
            RequestView::WriteCgroupFile { path: file, data },
        ) ==> file == subtree::file_in(m.full(), CGROUP_PROCS@) || offered(replies, data),
{
    lemma_belongs(m, pid, adding, replies);
    lemma_offered(m, pid, adding, replies);
}

/// The controllers that the operation was told of.
pub open spec fn offer(
    s: CreateCgroupView,
    replies: Seq<ReplyView>,
) -> Option<Seq<ControllerType>>
    decreases replies.len(),
{
    if replies.len() == 0 {
        None
    } else {
        match (run(s, replies.drop_last()).asks(), replies.last()) {
            (
                Some(RequestView::AvailableControllers { .. }),
                ReplyView::Controllers(Ok(list)),
            ) => Some(list),
            _ => offer(s, replies.drop_last()),
        }
    }
}

/// The writes to files that were attempted, in order.
pub open spec fn writes(s: CreateCgroupView, replies: Seq<ReplyView>) -> Seq<RequestView>
    decreases replies.len(),
{
    if replies.len() == 0 {
        Seq::empty()
    } else {
        let sofar = writes(s, replies.drop_last());
        match run(s, replies.drop_last()).asks() {
            Some(request) if request is WriteCgroupFile && request::answers(
                replies.last(),
                request,
            ) => sofar.push(request),
            _ => sofar,
        }
    }
}

/// The writes that switch on each of the controllers in directory `k`; the mount
/// point gets none.
pub open spec fn switching(m: Manager, controllers: Seq<Seq<char>>, k: int) -> Seq<RequestView> {
    if is_root(m, k) {
        Seq::empty()
    } else {
        controllers.map_values(
            |data: Seq<char>|
                RequestView::WriteCgroupFile {
                    path: subtree::file_in(directory(m, k), CGROUP_SUBTREE_CONTROL@),
                    data,
                },
        )
    }
}

/// The writes that do so in the first `k` directories, from the top down.
pub open spec fn switching_through(
    m: Manager,
    controllers: Seq<Seq<char>>,
    k: int,
) -> Seq<RequestView>
    decreases k,
{
    if k <= 0 {
        Seq::empty()
    } else {
        switching_through(m, controllers, k - 1) + switching(m, controllers, k)
    }
}

/// The writes that have been attempted when nothing has failed so far.
spec fn written(m: Manager, pid: i32, s: CreateCgroupView, told: bool) -> Seq<RequestView> {
    let attachment = CreateCgroupView::start(m, pid).attachment();
    let whole = if told {
        switching_through(m, s.controllers, depth(m) - 1)
    } else {
        Seq::empty()
    };
    match s.phase {
        CreatePhaseView::ProbeFull | CreatePhaseView::ListControllers => Seq::empty(),
        CreatePhaseView::Enable(w) => switching_through(m, s.controllers, s.index) + switching(
            m,
            s.controllers,
            s.index + 1,
        ).take(w.passed),
        CreatePhaseView::Attach => whole,
        CreatePhaseView::Done(_) => whole.push(attachment),
        _ => switching_through(m, s.controllers, s.index),
    }
}

/// What the operation was told of controllers is what it has.
proof fn lemma_offer(m: Manager, pid: i32, adding: bool, replies: Seq<ReplyView>)
    ensures
        ({
            let s = run(begin(m, pid, adding), replies);
            let offered = offer(begin(m, pid, adding), replies);
            &&& s.phase is ProbeFull || s.phase is ListControllers ==> offered is None
            &&& s.at_directory() ==> offered is Some
            &&& arrived(s) && !adding ==> offered is Some
            &&& arrived(s) ==> s.index == if offered is Some {
                depth(m)
            } else {
                0
            }
            &&& offered matches Some(list) ==> s.controllers == create::switches(list)
        }),
    decreases replies.len(),
{
    if replies.len() > 0 {
        lemma_offer(m, pid, adding, replies.drop_last());
        lemma_told(m, pid, adding, replies.drop_last());
        lemma_belongs(m, pid, adding, replies.drop_last());
    }
}

/// The writes that were attempted are those.
proof fn lemma_written(m: Manager, pid: i32, adding: bool, replies: Seq<ReplyView>)
    ensures
        ({
            let s = run(begin(m, pid, adding), replies);
            let told = offer(begin(m, pid, adding), replies) is Some;
            s.result() is None || arrived(s) ==> writes(begin(m, pid, adding), replies) == written(
                m,
                pid,
                s,
                told,
            )
        }),
    decreases replies.len(),
{
    if replies.len() > 0 {
        let front = replies.drop_last();
        let t = run(begin(m, pid, adding), front);
        lemma_written(m, pid, adding, front);
        lemma_belongs(m, pid, adding, front);
        lemma_told(m, pid, adding, front);
        lemma_offer(m, pid, adding, front);
        lemma_offer(m, pid, adding, replies);
        if t.at_directory() {
            let here = switching(m, t.controllers, t.index + 1);
            let above = switching_through(m, t.controllers, t.index);
            assert(t.current() == directory(m, t.index + 1));
            assert(above + here.take(0) =~= above);
            assert(here.len() == 0 ==> above + here =~= above);
            match t.phase {
                CreatePhaseView::Enable(w) => {
                    assert(here.take(w.passed + 1) =~= here.take(w.passed).push(here[w.passed]));
                    assert(above + here.take(w.passed + 1) =~= (above + here.take(w.passed)).push(
                        here[w.passed],
                    ));
                    assert(here.take(here.len() as int) =~= here);
                },
                _ => {},
            }
        }
    }
}

/// When a creation ends well, the writes that were attempted are exactly these:
/// each of the offered controllers, in order, for each directory on the way but
/// the last and the mount point, from the top down, and behind them the process
/// id. A cgroup that
/// was there gets the process id and nothing else.
pub proof fn law_success_means_all_was_written(
    m: Manager,
    pid: i32,
    adding: bool,
    replies: Seq<ReplyView>,
)
    requires
        run(begin(m, pid, adding), replies).result() == Some(Ok::<(), V2ManagerErrorView>(())),
    ensures
        !adding ==> offer(begin(m, pid, adding), replies) is Some,
        writes(begin(m, pid, adding), replies) == (match offer(begin(m, pid, adding), replies) {
            Some(list) => switching_through(m, create::switches(list), depth(m) - 1),
            None => Seq::empty(),
        }).push(CreateCgroupView::start(m, pid).attachment()),
{
    lemma_written(m, pid, adding, replies);
    lemma_offer(m, pid, adding, replies);
}

/// The directories on the way that were looked for, in order, each with whether
/// it was there.
pub open spec fn probes(s: CreateCgroupView, replies: Seq<ReplyView>) -> Seq<(Seq<u8>, bool)>
    decreases replies.len(),
{
    if replies.len() == 0 {
        Seq::empty()
    } else {
        let sofar = probes(s, replies.drop_last());
        let t = run(s, replies.drop_last());
        match (t.asks(), replies.last()) {
            (Some(RequestView::Exists { path }), ReplyView::Exists(there)) if t.phase is Probe => {
                sofar.push((path, there))
            },
            _ => sofar,
        }
    }
}

/// The directories that the operation made, in order.
pub open spec fn creations(s: CreateCgroupView, replies: Seq<ReplyView>) -> Seq<Seq<u8>>
    decreases replies.len(),
{
    if replies.len() == 0 {
        Seq::empty()
    } else {
        let sofar = creations(s, replies.drop_last());
        match (run(s, replies.drop_last()).asks(), replies.last()) {
            (Some(RequestView::CreateDir { path }), ReplyView::Io(Ok(_))) => sofar.push(path),
            _ => sofar,
        }
    }
}

/// Those of the directories that were not there.
pub open spec fn missing(probed: Seq<(Seq<u8>, bool)>) -> Seq<Seq<u8>>
    decreases probed.len(),
{
    if probed.len() == 0 {
        Seq::empty()
    } else if probed.last().1 {
        missing(probed.drop_last())
    } else {
        missing(probed.drop_last()).push(probed.last().0)
    }
}

/// Each directory is looked for once, and made if it was not there.
proof fn lemma_probes(m: Manager, pid: i32, adding: bool, replies: Seq<ReplyView>)
    ensures
        ({
            let s = run(begin(m, pid, adding), replies);
            let probed = probes(begin(m, pid, adding), replies);
            let created = creations(begin(m, pid, adding), replies);
            &&& forall|k: int|
                0 <= k < probed.len() ==> (#[trigger] probed[k]).0 == directory(m, k + 1)
            &&& s.phase is ProbeFull || s.phase is ListControllers ==> probed.len() == 0
            &&& s.phase is Probe || arrived(s) ==> probed.len() == s.index
            &&& s.phase is MakeDir || s.phase is Inspect || s.phase is Enable ==> probed.len()
                == s.index + 1
            &&& s.phase is MakeDir ==> !probed.last().1 && created == missing(probed.drop_last())
            &&& s.phase !is MakeDir && s.result() is None || arrived(s) ==> created == missing(
                probed,
            )
        }),
    decreases replies.len(),
{
    if replies.len() > 0 {
        let front = replies.drop_last();
        let t = run(begin(m, pid, adding), front);
        let probed = probes(begin(m, pid, adding), front);
        lemma_probes(m, pid, adding, front);
        lemma_belongs(m, pid, adding, front);
        lemma_told(m, pid, adding, front);
        if t.at_directory() {
            assert(t.current() == directory(m, t.index + 1));
        }
        if t.phase is Probe {
            assert(probed.push((t.current(), true)).drop_last() =~= probed);
            assert(probed.push((t.current(), false)).drop_last() =~= probed);
        }
        if t.phase is MakeDir {
            assert(probed.last() == probed[probed.len() - 1]);
        }
    }
}

/// When a creation ends well, each directory on the way was looked for once,
/// from the top down, and the directories that were made are exactly those that
/// were not there, in that order. For a cgroup that was there none is looked
/// for, and none is made.
pub proof fn law_success_means_missing_were_made(
    m: Manager,
    pid: i32,
    adding: bool,
    replies: Seq<ReplyView>,
)
    requires
        run(begin(m, pid, adding), replies).result() == Some(Ok::<(), V2ManagerErrorView>(())),
    ensures
        ({
            let probed = probes(begin(m, pid, adding), replies);
            let created = offer(begin(m, pid, adding), replies) is Some;
            &&& !adding ==> created
            &&& probed.len() == if created {
                depth(m)
            } else {
                0
            }
            &&& forall|k: int|
                0 <= k < probed.len() ==> (#[trigger] probed[k]).0 == directory(m, k + 1)
            &&& creations(begin(m, pid, adding), replies) == missing(probed)
        }),
{
    lemma_probes(m, pid, adding, replies);
    lemma_offer(m, pid, adding, replies);
}

/// A cgroup that is there is joined as it is: nothing is asked for but to put
/// the process into it.
pub proof fn law_existing_cgroup_is_joined(m: Manager, pid: i32, replies: Seq<ReplyView>)
    requires
        replies.len() > 0,
        replies[0] == ReplyView::Exists(true),
    ensures
        run(CreateCgroupView::start_add(m, pid), replies).asks() matches Some(request) ==> request
            == CreateCgroupView::start(m, pid).attachment(),
{
    lemma_joined(m, pid, replies);
}

/// The operation has nothing to do but to put the process into the cgroup.
proof fn lemma_joined(m: Manager, pid: i32, replies: Seq<ReplyView>)
    requires
        replies.len() > 0,
        replies[0] == ReplyView::Exists(true),
    ensures
        ({
            let s = run(CreateCgroupView::start_add(m, pid), replies);
            &&& s.phase is Attach || s.phase is Done
            &&& s.full == m.full()
            &&& s.pid == pid
        }),
    decreases replies.len(),
{
    let front = replies.drop_last();
    if replies.len() == 1 {
        assert(run(CreateCgroupView::start_add(m, pid), front) == CreateCgroupView::start_add(
            m,
            pid,
        ));
    } else {
        lemma_joined(m, pid, front);
    }
}

} // verus!
