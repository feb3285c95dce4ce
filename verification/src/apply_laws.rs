//! What holds of setting the resources of a cgroup, whatever the replies.

use vstd::prelude::*;

use crate::apply;
use crate::apply::{ApplyPhaseView, ApplyResourcesView};
use crate::controller_type::{ControllerType, CONTROLLER_TYPES, PSEUDO_CONTROLLER_TYPES};
use crate::error::V2ManagerErrorView;
use crate::manager::Manager;
use crate::request;
use crate::request::{ReplyView, RequestView};

verus! {

/// The setting of resources after some replies.
pub open spec fn run(s: ApplyResourcesView, replies: Seq<ReplyView>) -> ApplyResourcesView
    decreases replies.len(),
{
    if replies.len() == 0 {
        s
    } else {
        run(s, replies.drop_last()).after(replies.last())
    }
}

/// An end is final: it is kept whatever is replied.
pub proof fn law_end_is_final(s: ApplyResourcesView, replies: Seq<ReplyView>)
    requires
        s.result() is Some,
    ensures
        run(s, replies) == s,
        s.asks() is None,
    decreases replies.len(),
{
    if replies.len() > 0 {
        law_end_is_final(s, replies.drop_last());
    }
}

/// As long as there is no end, something is asked for, and a reply that does
/// not answer it changes nothing.
pub proof fn law_waits_for_answers(s: ApplyResourcesView, reply: ReplyView)
    ensures
        s.asks() is None <==> s.result() is Some,
        s.asks() matches Some(request) ==> !request::answers(reply, request) ==> s.after(reply)
            == s,
{
}

/// Whether a reply tells of a failure.
pub open spec fn fails(reply: ReplyView) -> bool {
    match reply {
        ReplyView::Wrapped(r) => r is Err,
        ReplyView::Subsystem(r) => r is Err,
        ReplyView::Controllers(r) => r is Err,
        _ => false,
    }
}

/// A failure ends the setting of resources: what comes after it in the order
/// is not set.
pub proof fn law_first_failure_ends(s: ApplyResourcesView, reply: ReplyView)
    requires
        s.asks() is Some,
        request::answers(reply, s.asks()->0),
        fails(reply),
    ensures
        s.after(reply).result() matches Some(Err(_)),
{
}

/// How far the setting of resources is from its end, at most.
pub open spec fn left(s: ApplyResourcesView) -> int {
    let controllers = CONTROLLER_TYPES@.len() as int;
    let pseudo = PSEUDO_CONTROLLER_TYPES@.len() as int;
    match s.phase {
        ApplyPhaseView::Controller(i) => 2 * pseudo + 1 + controllers - i,
        ApplyPhaseView::Devices => 2 * pseudo + 1,
        ApplyPhaseView::ListControllers(j) => 2 * (pseudo - j),
        ApplyPhaseView::Unified(j, _) => 2 * (pseudo - j) - 1,
        ApplyPhaseView::Done(_) => 0,
    }
}

/// The pseudo controllers from one on take no more than two replies each.
proof fn lemma_pseudo(s: ApplyResourcesView, j: int)
    requires
        0 <= j <= PSEUDO_CONTROLLER_TYPES@.len(),
    ensures
        0 <= left(s.pseudo(j)) <= 2 * (PSEUDO_CONTROLLER_TYPES@.len() - j),
    decreases PSEUDO_CONTROLLER_TYPES@.len() - j,
{
    if j < PSEUDO_CONTROLLER_TYPES@.len() {
        lemma_pseudo(s, j + 1);
    }
}

/// Every answer brings the setting of resources closer to its end, so it ends.
pub proof fn law_answers_lead_to_the_end(s: ApplyResourcesView, reply: ReplyView)
    requires
        s.wf(),
        s.asks() is Some,
        request::answers(reply, s.asks()->0),
    ensures
        0 <= left(s.after(reply)) < left(s),
{
    lemma_pseudo(s, 0);
    match s.phase {
        ApplyPhaseView::Unified(j, _) => {
            lemma_pseudo(s, j + 1);
        },
        _ => {},
    }
}

/// The good reply to setting a controller.
pub open spec fn well(c: ControllerType) -> ReplyView {
    if apply::fails_at_file(c) {
        ReplyView::Wrapped(Ok(()))
    } else {
        ReplyView::Subsystem(Ok(()))
    }
}

/// All that is asked for, in order: the controllers, the device rules where
/// they are supported, then the controllers that there are, and the unified
/// resources with these.
pub open spec fn requests(
    m: Manager,
    devices: bool,
    list: Seq<ControllerType>,
) -> Seq<RequestView> {
    CONTROLLER_TYPES@.map_values(
        |c: ControllerType| RequestView::Apply { controller: c, path: m.full() },
    ) + (if devices {
        seq![RequestView::ApplyDevices { path: m.full() }]
    } else {
        Seq::empty()
    }) + seq![
        RequestView::AvailableControllers { root: m.root() },
        RequestView::ApplyUnified { path: m.full(), available: list },
    ]
}

/// The good replies to all that.
pub open spec fn good_replies(devices: bool, list: Seq<ControllerType>) -> Seq<ReplyView> {
    CONTROLLER_TYPES@.map_values(|c: ControllerType| well(c)) + (if devices {
        seq![ReplyView::Subsystem(Ok(()))]
    } else {
        Seq::empty()
    }) + seq![ReplyView::Controllers(Ok(list)), ReplyView::Subsystem(Ok(()))]
}

/// What the setting of resources is at after `k` good replies.
spec fn phase_at(devices: bool, list: Seq<ControllerType>, k: int) -> ApplyPhaseView {
    let extra: int = if devices {
        1
    } else {
        0
    };
    if k < 6 {
        ApplyPhaseView::Controller(k)
    } else if k < 6 + extra {
        ApplyPhaseView::Devices
    } else if k == 6 + extra {
        ApplyPhaseView::ListControllers(2)
    } else if k == 7 + extra {
        ApplyPhaseView::Unified(2, list)
    } else {
        ApplyPhaseView::Done(Ok(()))
    }
}

/// It is at that.
proof fn lemma_phase_at(m: Manager, devices: bool, list: Seq<ControllerType>, k: int)
    requires
        0 <= k <= good_replies(devices, list).len(),
    ensures
        run(ApplyResourcesView::start(m, devices), good_replies(devices, list).take(k))
            == ApplyResourcesView::start(m, devices).at(phase_at(devices, list, k)),
    decreases k,
{
    let replies = good_replies(devices, list);
    let s = ApplyResourcesView::start(m, devices);
    if k > 0 {
        lemma_phase_at(m, devices, list, k - 1);
        assert(replies.take(k).drop_last() =~= replies.take(k - 1));
        assert(replies.take(k).last() == replies[k - 1]);
        let t = s.at(phase_at(devices, list, k - 1));
        reveal_with_fuel(ApplyResourcesView::pseudo, 4);
        if k <= 6 {
            assert(replies[k - 1] == well(CONTROLLER_TYPES@[k - 1]));
        }
        assert(t.after(replies[k - 1]).phase == phase_at(devices, list, k));
    }
}

/// When all goes well, everything is set, in order, and nothing else is asked for.
pub proof fn law_everything_is_set_in_order(
    m: Manager,
    devices: bool,
    list: Seq<ControllerType>,
    k: int,
)
    requires
        0 <= k <= requests(m, devices, list).len(),
    ensures
        good_replies(devices, list).len() == requests(m, devices, list).len(),
        ({
            let s = run(
                ApplyResourcesView::start(m, devices),
                good_replies(devices, list).take(k),
            );
            if k < requests(m, devices, list).len() {
                s.asks() == Some(requests(m, devices, list)[k])
            } else {
                s.result() == Some(Ok::<(), V2ManagerErrorView>(()))
            }
        }),
{
    lemma_phase_at(m, devices, list, k);
}

} // verus!
