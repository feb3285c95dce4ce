//! What holds of writing controllers, whatever the replies.

use vstd::prelude::*;

use crate::error::WrappedIoErrorView;
use crate::request::{ReplyView, RequestView};
use crate::subtree;
use crate::subtree::{WriteControllersView, CGROUP_SUBTREE_CONTROL};

verus! {

/// The writing of controllers after some replies.
pub open spec fn run(s: WriteControllersView, replies: Seq<ReplyView>) -> WriteControllersView
    decreases replies.len(),
{
    if replies.len() == 0 {
        s
    } else {
        run(s, replies.drop_last()).after(replies.last())
    }
}

/// Whether a reply says that a write went well, or failed in a way that `s` passes over.
pub open spec fn passing(s: WriteControllersView, reply: ReplyView) -> bool {
    reply matches ReplyView::Wrapped(r) && s.passes(r)
}

/// Replies come one after the other: what more of them lead to.
pub proof fn lemma_run_more(s: WriteControllersView, first: Seq<ReplyView>, more: Seq<ReplyView>)
    ensures
        run(s, first + more) == run(run(s, first), more),
    decreases more.len(),
{
    if more.len() == 0 {
        assert(first + more =~= first);
    } else {
        assert((first + more).drop_last() =~= first + more.drop_last());
        lemma_run_more(s, first, more.drop_last());
    }
}

/// An end is final: it is kept whatever is replied, and nothing more is asked.
pub proof fn law_end_is_final(s: WriteControllersView, replies: Seq<ReplyView>)
    requires
        s.result() is Some,
    ensures
        run(s, replies) == s,
        s.asks() is None,
    decreases replies.len(),
{
    if replies.len() > 0 {
        law_end_is_final(s, replies.drop_last());
    }
}

/// The controllers are written one at a time and in order, each once: when as
/// many writes have been passed as there are replies, the next controller is
/// asked for, and behind the last one the operation ends well.
pub proof fn law_one_write_for_each_controller(
    path: Seq<u8>,
    controllers: Seq<Seq<char>>,
    strict: bool,
    replies: Seq<ReplyView>,
)
    requires
        replies.len() <= controllers.len(),
        forall|i: int|
            0 <= i < replies.len() ==> passing(
                WriteControllersView::start(path, controllers, strict),
                #[trigger] replies[i],
            ),
    ensures
        ({
            let s = run(WriteControllersView::start(path, controllers, strict), replies);
            if replies.len() < controllers.len() {
                s.asks() == Some(
                    RequestView::WriteCgroupFile {
                        path: subtree::file_in(path, CGROUP_SUBTREE_CONTROL@),
                        data: controllers[replies.len() as int],
                    },
                )
            } else {
                s.result() == Some(Ok::<(), WrappedIoErrorView>(()))
            }
        }),
{
    lemma_passed(path, controllers, strict, replies);
}

/// As many writes have been passed as there are passing replies.
pub proof fn lemma_passed(
    path: Seq<u8>,
    controllers: Seq<Seq<char>>,
    strict: bool,
    replies: Seq<ReplyView>,
)
    requires
        replies.len() <= controllers.len(),
        forall|i: int|
            0 <= i < replies.len() ==> passing(
                WriteControllersView::start(path, controllers, strict),
                #[trigger] replies[i],
            ),
    ensures
        run(WriteControllersView::start(path, controllers, strict), replies) == (
        WriteControllersView {
            passed: replies.len() as int,
            ..WriteControllersView::start(path, controllers, strict)
        }),
    decreases replies.len(),
{
    let s = WriteControllersView::start(path, controllers, strict);
    if replies.len() > 0 {
        let front = replies.drop_last();
        assert forall|i: int| 0 <= i < front.len() implies passing(s, #[trigger] front[i]) by {
            assert(front[i] == replies[i]);
        }
        lemma_passed(path, controllers, strict, front);
        assert(passing(s, replies[replies.len() - 1]));
    }
}

/// The first failure that is not passed over is the result, whatever is
/// replied after it: in strict mode that is the first failure of all.
pub proof fn law_first_failure_that_counts_is_the_result(
    path: Seq<u8>,
    controllers: Seq<Seq<char>>,
    strict: bool,
    replies: Seq<ReplyView>,
    k: int,
    e: WrappedIoErrorView,
)
    requires
        0 <= k < replies.len(),
        k < controllers.len(),
        forall|i: int|
            0 <= i < k ==> passing(
                WriteControllersView::start(path, controllers, strict),
                #[trigger] replies[i],
            ),
        replies[k] == ReplyView::Wrapped(Err(e)),
        strict || !subtree::tolerated(e),
    ensures
        run(WriteControllersView::start(path, controllers, strict), replies).result() == Some(
            Err::<(), WrappedIoErrorView>(e),
        ),
{
    let s = WriteControllersView::start(path, controllers, strict);
    let before = replies.take(k);
    assert forall|i: int| 0 <= i < before.len() implies passing(s, #[trigger] before[i]) by {
        assert(before[i] == replies[i]);
    }
    lemma_passed(path, controllers, strict, before);
    let through = replies.take(k + 1);
    assert(through.drop_last() =~= before);
    assert(run(s, through).result() == Some(Err::<(), WrappedIoErrorView>(e)));
    law_end_is_final(run(s, through), replies.skip(k + 1));
    lemma_run_more(s, through, replies.skip(k + 1));
    assert(through + replies.skip(k + 1) =~= replies);
}

/// Unless it is strict, the operation ends well however many writes fail, as
/// long as each failure is one of those that are tolerated.
pub proof fn law_tolerated_failures_do_no_harm(
    path: Seq<u8>,
    controllers: Seq<Seq<char>>,
    replies: Seq<ReplyView>,
)
    requires
        replies.len() == controllers.len(),
        forall|i: int|
            0 <= i < replies.len() ==> (#[trigger] replies[i] matches ReplyView::Wrapped(r) && (r
                matches Err(e) ==> subtree::tolerated(e))),
    ensures
        run(WriteControllersView::start(path, controllers, false), replies).result() == Some(
            Ok::<(), WrappedIoErrorView>(()),
        ),
{
    let s = WriteControllersView::start(path, controllers, false);
    assert forall|i: int| 0 <= i < replies.len() implies passing(s, #[trigger] replies[i]) by {}
    law_one_write_for_each_controller(path, controllers, false, replies);
}

/// How many of the replies say that a write went well.
pub open spec fn good_writes(replies: Seq<ReplyView>) -> nat
    decreases replies.len(),
{
    if replies.len() == 0 {
        0
    } else {
        let before = good_writes(replies.drop_last());
        match replies.last() {
            ReplyView::Wrapped(Ok(_)) => before + 1,
            _ => before,
        }
    }
}

/// In strict mode a good end means that every controller was written: there
/// are at least as many good replies as controllers.
pub proof fn law_strict_success_is_complete(
    path: Seq<u8>,
    controllers: Seq<Seq<char>>,
    replies: Seq<ReplyView>,
)
    requires
        run(WriteControllersView::start(path, controllers, true), replies).result() == Some(
            Ok::<(), WrappedIoErrorView>(()),
        ),
    ensures
        good_writes(replies) >= controllers.len(),
{
    lemma_strict(path, controllers, replies);
}

/// In strict mode each passed write went well.
proof fn lemma_strict(path: Seq<u8>, controllers: Seq<Seq<char>>, replies: Seq<ReplyView>)
    ensures
        ({
            let s = run(WriteControllersView::start(path, controllers, true), replies);
            &&& s.strict
            &&& s.controllers == controllers
            &&& s.passed <= good_writes(replies)
        }),
    decreases replies.len(),
{
    if replies.len() > 0 {
        lemma_strict(path, controllers, replies.drop_last());
    }
}

} // verus!
