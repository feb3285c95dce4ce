//! What holds of reading the statistics of a cgroup.

use vstd::prelude::*;

use crate::controller_type::{ControllerType, CONTROLLER_TYPES};
use crate::error::V2ManagerErrorView;
use crate::manager::Manager;
use crate::stats;
use crate::stats::{GatherStatsView, Stats, StatsReply};

verus! {

/// An end is final: it is kept whatever is replied.
pub proof fn law_end_is_final<C, H, P, M, B>(
    s: GatherStatsView<C, H, P, M, B>,
    reply: StatsReply<C, H, P, M, B>,
)
    requires
        s.result() is Some,
    ensures
        s.after(reply) == s,
        s.asks() is None,
{
}

/// Whether a reply is about a controller.
pub open spec fn about<C, H, P, M, B>(
    reply: StatsReply<C, H, P, M, B>,
    c: ControllerType,
) -> bool {
    match c {
        ControllerType::Cpu => reply is Cpu,
        ControllerType::HugeTlb => reply is HugeTlb,
        ControllerType::Io => reply is Io,
        ControllerType::Memory => reply is Memory,
        ControllerType::Pids => reply is Pids,
        ControllerType::CpuSet => false,
    }
}

/// A reply about another controller than the one asked for changes nothing.
pub proof fn law_waits_for_answers<C, H, P, M, B>(
    s: GatherStatsView<C, H, P, M, B>,
    reply: StatsReply<C, H, P, M, B>,
)
    requires
        s.asks() matches Some((c, _)) && !about(reply, c),
    ensures
        s.after(reply) == s,
{
}

/// The failure that a reply tells of, if any, as it is reported.
pub open spec fn failure<C, H, P, M, B>(
    reply: StatsReply<C, H, P, M, B>,
) -> Option<V2ManagerErrorView> {
    match reply {
        StatsReply::Cpu(Err(e)) => Some(V2ManagerErrorView::CpuStats(e)),
        StatsReply::HugeTlb(Err(e)) => Some(V2ManagerErrorView::HugeTlbStats(e)),
        StatsReply::Pids(Err(e)) => Some(V2ManagerErrorView::PidsStats(e)),
        StatsReply::Memory(Err(e)) => Some(V2ManagerErrorView::MemoryStats(e)),
        StatsReply::Io(Err(e)) => Some(V2ManagerErrorView::IoStats(e)),
        _ => None,
    }
}

/// The first failure is the result: statistics that are in part missing are
/// never given.
pub proof fn law_first_failure_ends<C, H, P, M, B>(
    s: GatherStatsView<C, H, P, M, B>,
    reply: StatsReply<C, H, P, M, B>,
)
    requires
        s.asks() matches Some((c, _)) && about(reply, c),
        failure(reply) is Some,
    ensures
        s.after(reply).result() == Some(
            Err::<Stats<C, H, P, M, B>, V2ManagerErrorView>(failure(reply)->0),
        ),
{
}

/// The controllers behind one that was read are behind it in the order.
proof fn lemma_with_stats(i: int)
    ensures
        i <= stats::with_stats(i),
    decreases CONTROLLER_TYPES@.len() - i,
{
    if 0 <= i < CONTROLLER_TYPES@.len() {
        lemma_with_stats(i + 1);
    }
}

/// Every answer ends the reading or brings it to a later controller, so it ends.
pub proof fn law_answers_lead_to_the_end<C, H, P, M, B>(
    s: GatherStatsView<C, H, P, M, B>,
    reply: StatsReply<C, H, P, M, B>,
)
    requires
        s.asks() matches Some((c, _)) && about(reply, c),
    ensures
        s.after(reply).result() is Some || s.after(reply).index > s.index,
{
    lemma_with_stats(s.index + 1);
}

/// The controllers with statistics are read in order, and when all goes well
/// the result holds for each what was read of it, and nothing of what was
/// there before.
pub proof fn law_statistics_are_complete<C, H, P, M, B>(
    m: Manager,
    initial: Stats<C, H, P, M, B>,
    read: Stats<C, H, P, M, B>,
)
    ensures
        ({
            let s0 = GatherStatsView::start(m, initial);
            let s1 = s0.after(StatsReply::Cpu(Ok(read.cpu)));
            let s2 = s1.after(StatsReply::HugeTlb(Ok(read.hugetlb)));
            let s3 = s2.after(StatsReply::Io(Ok(read.blkio)));
            let s4 = s3.after(StatsReply::Memory(Ok(read.memory)));
            let s5 = s4.after(StatsReply::Pids(Ok(read.pids)));
            &&& s0.asks() == Some((ControllerType::Cpu, m.full()))
            &&& s1.asks() == Some((ControllerType::HugeTlb, m.full()))
            &&& s2.asks() == Some((ControllerType::Io, m.full()))
            &&& s3.asks() == Some((ControllerType::Memory, m.full()))
            &&& s4.asks() == Some((ControllerType::Pids, m.full()))
            &&& s5.result() == Some(Ok::<Stats<C, H, P, M, B>, V2ManagerErrorView>(read))
        }),
{
    reveal_with_fuel(stats::with_stats, 3);
}

} // verus!
