//! What holds of removing a cgroup, whatever the replies.

use vstd::prelude::*;

use crate::create::CreateCgroupView;
use crate::decimal;
use crate::decimal::ParseIntError;
use crate::error::{IoError, V2ManagerErrorView, WrappedIoErrorView};
use crate::manager::Manager;
use crate::procs;
use crate::remove::{RemoveCgroupView, RemovePhaseView, DELETE_LIMIT_MILLIS, DELETE_RETRIES};
use crate::request;
use crate::request::{ReplyView, RequestView};
use crate::scan;

verus! {

/// The removal after some replies.
pub open spec fn run(s: RemoveCgroupView, replies: Seq<ReplyView>) -> RemoveCgroupView
    decreases replies.len(),
{
    if replies.len() == 0 {
        s
    } else {
        run(s, replies.drop_last()).after(replies.last())
    }
}

/// The removal with the first `i` replies, which asks for the next one.
pub open spec fn before(m: Manager, replies: Seq<ReplyView>, i: int) -> RemoveCgroupView {
    run(RemoveCgroupView::start(m), replies.take(i))
}

/// The removal stays with its cgroup.
proof fn lemma_belongs(m: Manager, replies: Seq<ReplyView>)
    ensures
        run(RemoveCgroupView::start(m), replies).wf(),
        run(RemoveCgroupView::start(m), replies).full == m.full(),
    decreases replies.len(),
{
    if replies.len() > 0 {
        lemma_belongs(m, replies.drop_last());
    }
}

/// An end is final: it is kept whatever is replied.
pub proof fn law_end_is_final(s: RemoveCgroupView, replies: Seq<ReplyView>)
    requires
        s.result() is Some,
    ensures
        run(s, replies) == s,
        s.asks() is None,
    decreases replies.len(),
{
    if replies.len() > 0 {
        law_end_is_final(s, replies.drop_last());
    }
}

/// As long as there is no end, something is asked for, and a reply that does
/// not answer it changes nothing.
pub proof fn law_waits_for_answers(m: Manager, replies: Seq<ReplyView>, reply: ReplyView)
    ensures
        ({
            let s = run(RemoveCgroupView::start(m), replies);
            &&& s.asks() is None <==> s.result() is Some
            &&& s.asks() matches Some(request) ==> !request::answers(reply, request) ==> s.after(
                reply,
            ) == s
        }),
{
    lemma_belongs(m, replies);
}

/// How far the removal is from its end: first by what it has to find out,
/// then by the processes that are left.
pub open spec fn stage(s: RemoveCgroupView) -> nat {
    match s.phase {
        RemovePhaseView::ProbeFull => 6,
        RemovePhaseView::ProbeKill => 5,
        RemovePhaseView::KillAll => 4,
        RemovePhaseView::ReadProcs => 3,
        RemovePhaseView::Signal(..) => 2,
        RemovePhaseView::Delete => 1,
        RemovePhaseView::Done(_) => 0,
    }
}

/// The processes that are left to kill.
pub open spec fn left(s: RemoveCgroupView) -> nat {
    match s.phase {
        RemovePhaseView::Signal(pids, _) => pids.len(),
        _ => 0,
    }
}

/// Every answer brings the removal closer to its end, so it ends.
pub proof fn law_answers_lead_to_the_end(m: Manager, replies: Seq<ReplyView>, reply: ReplyView)
    requires
        run(RemoveCgroupView::start(m), replies).asks() is Some,
        request::answers(reply, run(RemoveCgroupView::start(m), replies).asks()->0),
    ensures
        ({
            let s = run(RemoveCgroupView::start(m), replies);
            let t = s.after(reply);
            stage(t) < stage(s) || (stage(t) == stage(s) && left(t) < left(s))
        }),
{
    lemma_belongs(m, replies);
}

/// The replies to `k` signals.
pub open spec fn signals(k: nat) -> Seq<ReplyView> {
    Seq::new(k, |i: int| ReplyView::Signalled)
}

/// Each process in the list is killed once, in the order of the list, and
/// whether or not the signal reaches it. Then the directory goes, unless the
/// list had a fault: that is the result, and nothing is removed.
pub proof fn law_each_process_is_killed_in_turn(
    s: RemoveCgroupView,
    pids: Seq<i32>,
    fault: Option<ParseIntError>,
    k: nat,
)
    requires
        k <= pids.len(),
    ensures
        ({
            let t = run(s.signalling(pids, fault), signals(k));
            if k < pids.len() {
                t.asks() == Some(RequestView::Kill { pid: pids[k as int] })
            } else {
                match fault {
                    Some(kind) => t.result() == Some(
                        Err::<(), V2ManagerErrorView>(
                            V2ManagerErrorView::WrappedIo(
                                WrappedIoErrorView::Other {
                                    err: IoError::InvalidData(kind),
                                    path: s.procs_file(),
                                },
                            ),
                        ),
                    ),
                    None => t.asks() == Some(
                        RequestView::DeleteWithRetry {
                            path: s.full,
                            retries: DELETE_RETRIES,
                            limit_millis: DELETE_LIMIT_MILLIS,
                        },
                    ),
                }
            }
        }),
{
    lemma_signals(s, pids, fault, k);
    if k < pids.len() {
        assert(pids.skip(k as int)[0] == pids[k as int]);
    }
}

/// After `k` signals, the first `k` processes are done with.
proof fn lemma_signals(
    s: RemoveCgroupView,
    pids: Seq<i32>,
    fault: Option<ParseIntError>,
    k: nat,
)
    requires
        k <= pids.len(),
    ensures
        run(s.signalling(pids, fault), signals(k)) == s.signalling(pids.skip(k as int), fault),
    decreases k,
{
    if k == 0 {
        assert(pids.skip(0) =~= pids);
    } else {
        lemma_signals(s, pids, fault, (k - 1) as nat);
        assert(signals(k).drop_last() =~= signals((k - 1) as nat));
        assert(pids.skip(k - 1).skip(1) =~= pids.skip(k as int));
    }
}

/// Whether the reply with this index tells that a process was sent a signal.
pub open spec fn signalled_at(m: Manager, replies: Seq<ReplyView>, pid: i32, j: int) -> bool {
    &&& 0 <= j < replies.len()
    &&& before(m, replies, j).asks() == Some(RequestView::Kill { pid })
    &&& replies[j] == ReplyView::Signalled
}

/// Whether one of the replies tells that a process was sent a signal.
pub open spec fn signalled(m: Manager, replies: Seq<ReplyView>, pid: i32) -> bool {
    exists|j: int| #[trigger] signalled_at(m, replies, pid, j)
}

/// The replies before the last one say the same without it.
proof fn lemma_front(m: Manager, replies: Seq<ReplyView>, i: int)
    requires
        0 <= i < replies.len(),
    ensures
        before(m, replies, replies.len() - 1) == run(
            RemoveCgroupView::start(m),
            replies.drop_last(),
        ),
        i < replies.len() - 1 ==> before(m, replies.drop_last(), i) == before(m, replies, i)
            && replies.drop_last()[i] == replies[i],
{
    assert(replies.take(replies.len() - 1) =~= replies.drop_last());
    if i < replies.len() - 1 {
        assert(replies.drop_last().take(i) =~= replies.take(i));
    }
}

/// Whether a reply at this point says that the kernel killed all processes, or
/// lists processes without a fault.
pub open spec fn clears(s: RemoveCgroupView, reply: ReplyView) -> bool {
    match (s.phase, reply) {
        (RemovePhaseView::KillAll, ReplyView::Io(Ok(_))) => true,
        (RemovePhaseView::ReadProcs, ReplyView::Text(Ok(text))) => procs::fault(
            vstd::utf8::encode_utf8(text),
        ) is None,
        _ => false,
    }
}

/// The processes that such a reply leaves to be killed one by one.
pub open spec fn listed(s: RemoveCgroupView, reply: ReplyView) -> Seq<i32> {
    match (s.phase, reply) {
        (RemovePhaseView::ReadProcs, ReplyView::Text(Ok(text))) => procs::pids(
            vstd::utf8::encode_utf8(text),
        ),
        _ => Seq::empty(),
    }
}

/// Whether the reply with this index is such a one, and all processes that it
/// lists were sent a signal but for the ones at the end that are `left`.
pub open spec fn cleared(m: Manager, replies: Seq<ReplyView>, i: int, left: Seq<i32>) -> bool {
    &&& 0 <= i < replies.len()
    &&& clears(before(m, replies, i), replies[i])
    &&& {
        let list = listed(before(m, replies, i), replies[i]);
        let sent = list.len() - left.len();
        &&& 0 <= sent
        &&& left == list.skip(sent)
        &&& forall|k: int| 0 <= k < sent ==> signalled(m, replies, #[trigger] list[k])
    }
}

/// Whether the kernel killed all processes, or each process of a list without
/// a fault was sent a signal.
pub open spec fn emptied(m: Manager, replies: Seq<ReplyView>) -> bool {
    exists|i: int| #[trigger] cleared(m, replies, i, Seq::empty())
}

/// What was done stays done with one more reply.
proof fn lemma_cleared_stays(m: Manager, replies: Seq<ReplyView>, i: int, left: Seq<i32>)
    requires
        replies.len() > 0,
        cleared(m, replies.drop_last(), i, left),
    ensures
        cleared(m, replies, i, left),
{
    let front = replies.drop_last();
    lemma_front(m, replies, i);
    let list = listed(before(m, replies, i), replies[i]);
    assert forall|k: int| 0 <= k < list.len() - left.len() implies signalled(
        m,
        replies,
        #[trigger] list[k],
    ) by {
        assert(signalled(m, front, list[k]));
        let j = choose|j: int| #[trigger] signalled_at(m, front, list[k], j);
        lemma_front(m, replies, j);
        assert(signalled_at(m, replies, list[k], j));
    }
}

/// A reply that clears leaves all that it lists.
proof fn lemma_listed(m: Manager, replies: Seq<ReplyView>)
    requires
        replies.len() > 0,
        clears(run(RemoveCgroupView::start(m), replies.drop_last()), replies.last()),
    ensures
        cleared(
            m,
            replies,
            replies.len() - 1,
            listed(run(RemoveCgroupView::start(m), replies.drop_last()), replies.last()),
        ),
{
    let n = replies.len() - 1;
    lemma_front(m, replies, n);
    let list = listed(before(m, replies, n), replies[n]);
    assert(list.skip(0) =~= list);
}

/// A signal that was sent leaves one process less.
proof fn lemma_sent(m: Manager, replies: Seq<ReplyView>, i: int, left: Seq<i32>)
    requires
        replies.len() > 0,
        left.len() > 0,
        run(RemoveCgroupView::start(m), replies.drop_last()).phase == RemovePhaseView::Signal(
            left,
            None,
        ),
        replies.last() == ReplyView::Signalled,
        cleared(m, replies.drop_last(), i, left),
    ensures
        cleared(m, replies, i, left.skip(1)),
{
    let n = replies.len() - 1;
    lemma_front(m, replies, n);
    lemma_cleared_stays(m, replies, i, left);
    let list = listed(before(m, replies, i), replies[i]);
    let sent = list.len() - left.len();
    assert(list[sent] == left[0]);
    assert(signalled_at(m, replies, list[sent], n));
    assert(left.skip(1) =~= list.skip(sent + 1));
}

/// While processes of a list without a fault are left, the others of it were
/// sent a signal; when the directory goes, none is left.
proof fn lemma_cleared(m: Manager, replies: Seq<ReplyView>) -> (i: int)
    ensures
        ({
            let s = run(RemoveCgroupView::start(m), replies);
            &&& s.phase is Delete ==> cleared(m, replies, i, Seq::empty())
            &&& s.phase matches RemovePhaseView::Signal(left, None) ==> cleared(m, replies, i, left)
        }),
    decreases replies.len(),
{
    if replies.len() == 0 {
        0
    } else {
        let front = replies.drop_last();
        let t = run(RemoveCgroupView::start(m), front);
        let i = lemma_cleared(m, front);
        lemma_belongs(m, front);
        match t.phase {
            RemovePhaseView::KillAll | RemovePhaseView::ReadProcs => {
                if clears(t, replies.last()) {
                    lemma_listed(m, replies);
                    let list = listed(t, replies.last());
                    assert(list.len() == 0 ==> list =~= Seq::empty());
                }
                replies.len() - 1
            },
            RemovePhaseView::Signal(left, None) => {
                if replies.last() is Signalled {
                    lemma_sent(m, replies, i, left);
                    assert(left.len() == 1 ==> left.skip(1) =~= Seq::empty());
                } else {
                    lemma_cleared_stays(m, replies, i, left);
                }
                i
            },
            RemovePhaseView::Delete => {
                lemma_cleared_stays(m, replies, i, Seq::empty());
                i
            },
            _ => i,
        }
    }
}

/// The directory is removed only when the kernel has killed all processes, or
/// a list of processes without a fault was read and each was sent a signal.
pub proof fn law_processes_go_first(m: Manager, replies: Seq<ReplyView>)
    requires
        run(RemoveCgroupView::start(m), replies).asks() matches Some(
            RequestView::DeleteWithRetry { .. },
        ),
    ensures
        emptied(m, replies),
{
    let i = lemma_cleared(m, replies);
    lemma_belongs(m, replies);
}

/// Where the kernel can kill all processes, none is sent a signal, and the
/// list of processes is not read.
pub proof fn law_kernel_kills_all_or_none(m: Manager, replies: Seq<ReplyView>)
    requires
        replies.len() >= 2,
        replies[0] == ReplyView::Exists(true),
        replies[1] == ReplyView::Exists(true),
    ensures
        !(run(RemoveCgroupView::start(m), replies).asks() matches Some(RequestView::Kill { .. })),
        !(run(RemoveCgroupView::start(m), replies).asks() matches Some(
            RequestView::ReadToString { .. },
        )),
{
    lemma_kernel(m, replies);
}

/// The removal goes by the kernel.
proof fn lemma_kernel(m: Manager, replies: Seq<ReplyView>)
    requires
        replies.len() >= 2,
        replies[0] == ReplyView::Exists(true),
        replies[1] == ReplyView::Exists(true),
    ensures
        ({
            let s = run(RemoveCgroupView::start(m), replies);
            s.phase is KillAll || s.phase is Delete || s.phase is Done
        }),
    decreases replies.len(),
{
    let front = replies.drop_last();
    if replies.len() == 2 {
        reveal_with_fuel(run, 3);
        assert(front.drop_last() =~= Seq::empty());
    } else {
        lemma_kernel(m, front);
    }
}

/// A cgroup that is not there is removed at once, and nothing is touched.
pub proof fn law_missing_cgroup_is_no_error(m: Manager, replies: Seq<ReplyView>)
    requires
        replies.len() > 0,
        replies[0] == ReplyView::Exists(false),
    ensures
        run(RemoveCgroupView::start(m), replies).result() == Some(
            Ok::<(), V2ManagerErrorView>(()),
        ),
    decreases replies.len(),
{
    let front = replies.drop_last();
    if replies.len() == 1 {
        assert(run(RemoveCgroupView::start(m), front) == RemoveCgroupView::start(m));
    } else {
        law_missing_cgroup_is_no_error(m, front);
    }
}

/// Whether the reply with this index tells that the cgroup was not there, or
/// that its directory went.
pub open spec fn gone_at(m: Manager, replies: Seq<ReplyView>, i: int) -> bool {
    let request = before(m, replies, i).asks();
    let deletion = RequestView::DeleteWithRetry {
        path: m.full(),
        retries: DELETE_RETRIES,
        limit_millis: DELETE_LIMIT_MILLIS,
    };
    &&& 0 <= i < replies.len()
    &&& {
        ||| {
            &&& request == Some(RequestView::Exists { path: m.full() })
            &&& replies[i] == ReplyView::Exists(false)
        }
        ||| {
            &&& request == Some(deletion)
            &&& replies[i] matches ReplyView::Wrapped(Ok(_))
        }
    }
}

/// A good end means that the cgroup was not there, or that its directory went.
pub proof fn law_success_means_gone(m: Manager, replies: Seq<ReplyView>)
    requires
        run(RemoveCgroupView::start(m), replies).result() == Some(
            Ok::<(), V2ManagerErrorView>(()),
        ),
    ensures
        exists|i: int| #[trigger] gone_at(m, replies, i),
    decreases replies.len(),
{
    let front = replies.drop_last();
    let n = front.len() as int;
    lemma_belongs(m, front);
    if run(RemoveCgroupView::start(m), front).result() is Some {
        law_success_means_gone(m, front);
        let i = choose|i: int| #[trigger] gone_at(m, front, i);
        lemma_front(m, replies, i);
        assert(gone_at(m, replies, i));
    } else {
        lemma_front(m, replies, n);
        assert(gone_at(m, replies, n));
    }
}

/// What putting a process into a cgroup writes, removing the cgroup reads as
/// that one process, with or without the end of a line behind it.
pub proof fn law_attached_process_is_found(m: Manager, pid: i32, ended: bool)
    ensures
        ({
            let written = vstd::utf8::encode_utf8(
                CreateCgroupView::start(m, pid).attachment()->WriteCgroupFile_data,
            );
            let text = if ended {
                written.push(procs::LINE_FEED)
            } else {
                written
            };
            &&& procs::pids(text) == seq![pid]
            &&& procs::fault(text) is None
        }),
{
    let chars = decimal::decimal(pid as int);
    let written = vstd::utf8::encode_utf8(chars);
    decimal::law_decimal_round_trip(pid);
    decimal::lemma_decimal_bytes(pid);
    let text = if ended {
        written.push(procs::LINE_FEED)
    } else {
        written
    };
    assert forall|j: int| 0 <= j < written.len() implies text[j] != procs::LINE_FEED by {
        assert(text[j] == written[j]);
    }
    scan::lemma_position_is(text, procs::LINE_FEED, written.len() as int);
    reveal_with_fuel(procs::lines, 2);
    if ended {
        assert(text.take(written.len() as int) =~= written);
        assert(text.skip(written.len() as int + 1) =~= Seq::<u8>::empty());
    }
    let all = procs::lines(text);
    assert(all =~= seq![written]);
    reveal_with_fuel(procs::good, 2);
    assert(all.skip(1) =~= Seq::<Seq<u8>>::empty());
    assert(procs::good(all) == 1);
    assert(procs::pids(text) =~= seq![pid]);
}

} // verus!
