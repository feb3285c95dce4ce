//! Reading the statistics of a cgroup.

use vstd::prelude::*;

use crate::controller_type::{ControllerType, CONTROLLER_TYPES};
use crate::error::{SubsystemError, V2ManagerError, V2ManagerErrorView};
use crate::manager::Manager;
use crate::path::UnixPath;

verus! {

/// The statistics of a cgroup: those of the cpu, the hugetlb, the pids, the
/// memory and the io controller.
#[derive(Debug)]
pub struct Stats<C, H, P, M, B> {
    pub cpu: C,
    pub hugetlb: H,
    pub pids: P,
    pub memory: M,
    pub blkio: B,
}

/// The statistics of one controller that are to be read.
#[derive(Debug)]
pub struct StatsRequest {
    /// The controller.
    pub controller: ControllerType,
    /// The cgroup.
    pub path: UnixPath,
}

/// The model of what statistics are to be read next, if any.
pub open spec fn wanted(r: Option<StatsRequest>) -> Option<(ControllerType, Seq<u8>)> {
    match r {
        Some(request) => Some((request.controller, request.path@)),
        None => None,
    }
}

/// The statistics of one controller.
#[derive(Debug)]
pub enum StatsReply<C, H, P, M, B> {
    Cpu(Result<C, SubsystemError>),
    HugeTlb(Result<H, SubsystemError>),
    Pids(Result<P, SubsystemError>),
    Memory(Result<M, SubsystemError>),
    Io(Result<B, SubsystemError>),
}

/// The model of [`GatherStats`].
pub struct GatherStatsView<C, H, P, M, B> {
    /// The cgroup.
    pub full: Seq<u8>,
    /// What has been read.
    pub stats: Stats<C, H, P, M, B>,
    /// The controller whose statistics are read next.
    pub index: int,
    /// The failure that ended it.
    pub failure: Option<V2ManagerErrorView>,
}

/// The first controller from this index on that has statistics: the cpuset
/// controller has none.
pub open spec fn with_stats(i: int) -> int
    decreases CONTROLLER_TYPES@.len() - i,
{
    if 0 <= i < CONTROLLER_TYPES@.len() && CONTROLLER_TYPES@[i] == ControllerType::CpuSet {
        with_stats(i + 1)
    } else {
        i
    }
}

impl<C, H, P, M, B> GatherStatsView<C, H, P, M, B> {
    /// Nothing read yet of the statistics of the cgroup of `m`.
    pub open spec fn start(m: Manager, stats: Stats<C, H, P, M, B>) -> Self {
        GatherStatsView { full: m.full(), stats, index: with_stats(0), failure: None }
    }

    /// Whether the index is in range.
    pub open spec fn wf(self) -> bool {
        0 <= self.index <= CONTROLLER_TYPES@.len()
    }

    /// How it ended, if it has.
    pub open spec fn result(self) -> Option<Result<Stats<C, H, P, M, B>, V2ManagerErrorView>> {
        match self.failure {
            Some(e) => Some(Err(e)),
            None => if self.index >= CONTROLLER_TYPES@.len() {
                Some(Ok(self.stats))
            } else {
                None
            },
        }
    }

    /// What is read next, and where.
    pub open spec fn asks(self) -> Option<(ControllerType, Seq<u8>)> {
        if self.result() is Some {
            None
        } else {
            Some((CONTROLLER_TYPES@[self.index], self.full))
        }
    }

    /// With these statistics, at the next controller.
    pub open spec fn gained(self, stats: Stats<C, H, P, M, B>) -> Self {
        GatherStatsView { stats, index: with_stats(self.index + 1), ..self }
    }

    /// At the end, with a failure.
    pub open spec fn failed(self, e: V2ManagerErrorView) -> Self {
        GatherStatsView { failure: Some(e), ..self }
    }

    /// Where a reply leads to. One that is not what is read next changes nothing.
    pub open spec fn after(self, reply: StatsReply<C, H, P, M, B>) -> Self {
        if self.result() is Some {
            self
        } else {
            match (CONTROLLER_TYPES@[self.index], reply) {
                (ControllerType::Cpu, StatsReply::Cpu(r)) => match r {
                    Ok(cpu) => self.gained(Stats { cpu, ..self.stats }),
                    Err(e) => self.failed(V2ManagerErrorView::CpuStats(e)),
                },
                (ControllerType::HugeTlb, StatsReply::HugeTlb(r)) => match r {
                    Ok(hugetlb) => self.gained(Stats { hugetlb, ..self.stats }),
                    Err(e) => self.failed(V2ManagerErrorView::HugeTlbStats(e)),
                },
                (ControllerType::Pids, StatsReply::Pids(r)) => match r {
                    Ok(pids) => self.gained(Stats { pids, ..self.stats }),
                    Err(e) => self.failed(V2ManagerErrorView::PidsStats(e)),
                },
                (ControllerType::Memory, StatsReply::Memory(r)) => match r {
                    Ok(memory) => self.gained(Stats { memory, ..self.stats }),
                    Err(e) => self.failed(V2ManagerErrorView::MemoryStats(e)),
                },
                (ControllerType::Io, StatsReply::Io(r)) => match r {
                    Ok(blkio) => self.gained(Stats { blkio, ..self.stats }),
                    Err(e) => self.failed(V2ManagerErrorView::IoStats(e)),
                },
                _ => self,
            }
        }
    }
}

/// Finds the first controller from this index on that has statistics.
fn find_with_stats(from: usize) -> (i: usize)
    requires
        from <= CONTROLLER_TYPES@.len(),
    ensures
        i == with_stats(from as int),
        i <= CONTROLLER_TYPES@.len(),
{
    let mut i: usize = from;
    while i < CONTROLLER_TYPES.len() && CONTROLLER_TYPES[i] == ControllerType::CpuSet
        invariant
            i <= CONTROLLER_TYPES@.len(),
            with_stats(i as int) == with_stats(from as int),
        decreases CONTROLLER_TYPES@.len() - i,
    {
        i += 1;
    }
    i
}

/// The statistics of a cgroup being read, one controller after the other. The
/// first failure ends it.
#[derive(Debug)]
pub struct GatherStats<C, H, P, M, B> {
    full: UnixPath,
    stats: Stats<C, H, P, M, B>,
    index: usize,
    failure: Option<V2ManagerError>,
}

impl<C, H, P, M, B> View for GatherStats<C, H, P, M, B> {
    type V = GatherStatsView<C, H, P, M, B>;

    closed spec fn view(&self) -> GatherStatsView<C, H, P, M, B> {
        GatherStatsView {
            full: self.full@,
            stats: self.stats,
            index: self.index as int,
            failure: match self.failure {
                Some(e) => Some(e@),
                None => None,
            },
        }
    }
}

impl Manager {
    /// Starts reading the statistics of the cgroup. What `stats` holds is
    /// replaced by what is read.
    pub fn stats<C, H, P, M, B>(&self, stats: Stats<C, H, P, M, B>) -> (r: GatherStats<C, H, P, M, B>)
        ensures
            r@ == GatherStatsView::start(*self, stats),
            r@.wf(),
    {
        GatherStats {
            full: self.full_path().copy(),
            stats,
            index: find_with_stats(0),
            failure: None,
        }
    }
}

impl<C, H, P, M, B> GatherStats<C, H, P, M, B> {
    #[verifier::type_invariant]
    spec fn inv(self) -> bool {
        self@.wf()
    }

    /// Tells whether the operation has ended.
    fn has_ended(&self) -> (b: bool)
        ensures
            b == (self@.result() is Some),
    {
        self.failure.is_some() || self.index >= CONTROLLER_TYPES.len()
    }

    /// Names what is to be read next; none when the operation has ended.
    pub fn request(&self) -> (r: Option<StatsRequest>)
        ensures
            wanted(r) == self@.asks(),
            self@.wf(),
    {
        proof {
            use_type_invariant(self);
        }
        if self.has_ended() {
            return None;
        }
        Some(StatsRequest { controller: CONTROLLER_TYPES[self.index], path: self.full.copy() })
    }

    /// Goes on with the reply to the last request.
    pub fn resume(self, reply: StatsReply<C, H, P, M, B>) -> (r: Self)
        ensures
            r@ == self@.after(reply),
            r@.wf(),
    {
        proof {
            use_type_invariant(&self);
        }
        if self.has_ended() {
            return self;
        }
        let index: usize = find_with_stats(self.index + 1);
        let c: ControllerType = CONTROLLER_TYPES[self.index];
        match (c, reply) {
            (ControllerType::Cpu, StatsReply::Cpu(r)) => match r {
                Ok(cpu) => GatherStats { stats: Stats { cpu, ..self.stats }, index, ..self },
                Err(e) => GatherStats { failure: Some(V2ManagerError::CpuStats(e)), ..self },
            },
            (ControllerType::HugeTlb, StatsReply::HugeTlb(r)) => match r {
                Ok(hugetlb) => GatherStats { stats: Stats { hugetlb, ..self.stats }, index, ..self },
                Err(e) => GatherStats { failure: Some(V2ManagerError::HugeTlbStats(e)), ..self },
            },
            (ControllerType::Pids, StatsReply::Pids(r)) => match r {
                Ok(pids) => GatherStats { stats: Stats { pids, ..self.stats }, index, ..self },
                Err(e) => GatherStats { failure: Some(V2ManagerError::PidsStats(e)), ..self },
            },
            (ControllerType::Memory, StatsReply::Memory(r)) => match r {
                Ok(memory) => GatherStats { stats: Stats { memory, ..self.stats }, index, ..self },
                Err(e) => GatherStats { failure: Some(V2ManagerError::MemoryStats(e)), ..self },
            },
            (ControllerType::Io, StatsReply::Io(r)) => match r {
                Ok(blkio) => GatherStats { stats: Stats { blkio, ..self.stats }, index, ..self },
                Err(e) => GatherStats { failure: Some(V2ManagerError::IoStats(e)), ..self },
            },
            _ => self,
        }
    }

    /// Gives the statistics, or the failure; none while the operation goes on.
    pub fn finish(self) -> (r: Option<Result<Stats<C, H, P, M, B>, V2ManagerError>>)
        ensures
            match r {
                Some(Ok(stats)) => self@.result() == Some(
                    Ok::<Stats<C, H, P, M, B>, V2ManagerErrorView>(stats),
                ),
                Some(Err(e)) => self@.result() == Some(
                    Err::<Stats<C, H, P, M, B>, V2ManagerErrorView>(e@),
                ),
                None => self@.result() is None,
            },
    {
        match self.failure {
            Some(e) => Some(Err(e)),
            None => if self.index >= CONTROLLER_TYPES.len() {
                Some(Ok(self.stats))
            } else {
                None
            },
        }
    }
}

} // verus!
