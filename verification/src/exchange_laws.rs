//! Whole operations as exchanges of requests and replies.
//!
//! For each operation the exchange is written out from the start to the end:
//! what is asked for, what the good reply to it is, and what a failure there is
//! reported as. The laws state that the operation keeps to it for every cgroup
//! and every sequence of replies.

use vstd::prelude::*;

use crate::apply::{ApplyPhaseView, ApplyResourcesView};
use crate::controller_type::ControllerType;
use crate::create::{CreateCgroupView, CreatePhaseView};
use crate::create_laws;
use crate::decimal;
use crate::decimal::ParseIntError;
use crate::error::{IoError, V2ManagerErrorView, WrappedIoErrorView};
use crate::manager::Manager;
use crate::model_laws;
use crate::path;
use crate::remove::{RemoveCgroupView, RemovePhaseView};
use crate::request::{ReplyView, RequestView};
use crate::subtree;
use crate::subtree::WriteControllersView;
use crate::subtree_laws;
use crate::text_laws;

verus! {

/// An operation in progress.
pub trait Operation: Sized {
    /// What it asks for next.
    spec fn next_request(self) -> Option<RequestView>;

    /// Where a reply leads to.
    spec fn told(self, reply: ReplyView) -> Self;

    /// How it ended, if it has.
    spec fn end(self) -> Option<Result<(), V2ManagerErrorView>>;
}

impl Operation for CreateCgroupView {
    open spec fn next_request(self) -> Option<RequestView> {
        self.asks()
    }

    open spec fn told(self, reply: ReplyView) -> Self {
        self.after(reply)
    }

    open spec fn end(self) -> Option<Result<(), V2ManagerErrorView>> {
        self.result()
    }
}

impl Operation for RemoveCgroupView {
    open spec fn next_request(self) -> Option<RequestView> {
        self.asks()
    }

    open spec fn told(self, reply: ReplyView) -> Self {
        self.after(reply)
    }

    open spec fn end(self) -> Option<Result<(), V2ManagerErrorView>> {
        self.result()
    }
}

impl Operation for ApplyResourcesView {
    open spec fn next_request(self) -> Option<RequestView> {
        self.asks()
    }

    open spec fn told(self, reply: ReplyView) -> Self {
        self.after(reply)
    }

    open spec fn end(self) -> Option<Result<(), V2ManagerErrorView>> {
        self.result()
    }
}

/// An operation after some replies.
pub open spec fn played<O: Operation>(s: O, replies: Seq<ReplyView>) -> O
    decreases replies.len(),
{
    if replies.len() == 0 {
        s
    } else {
        played(s.told(replies[0]), replies.skip(1))
    }
}

/// Which replies to a request are good.
pub enum Good {
    /// Only this one.
    Exactly(ReplyView),
    /// That the write went well, or failed as is expected in a cgroup of
    /// another manager.
    WrittenOrExpected,
}

/// One request of an exchange.
pub struct Step {
    /// What is asked for.
    pub request: RequestView,
    /// Which replies are good.
    pub good: Good,
}

/// A request with its only good reply.
pub open spec fn step(request: RequestView, reply: ReplyView) -> Step {
    Step { request, good: Good::Exactly(reply) }
}

/// Whether a reply to a step is good.
pub open spec fn fine(s: Step, reply: ReplyView) -> bool {
    match s.good {
        Good::Exactly(r) => reply == r,
        Good::WrittenOrExpected => match reply {
            ReplyView::Wrapped(Ok(_)) => true,
            ReplyView::Wrapped(Err(e)) => model_laws::expected_elsewhere(e.inner()),
            _ => false,
        },
    }
}

/// What a reply to a step is reported as, if it tells of a failure that counts.
pub open spec fn reported(s: Step, reply: ReplyView) -> Option<V2ManagerErrorView> {
    if fine(s, reply) {
        None
    } else {
        match (s.request, reply) {
            (RequestView::AvailableControllers { .. }, ReplyView::Controllers(Err(e))) => Some(
                V2ManagerErrorView::Util(e),
            ),
            (RequestView::CreateDir { path }, ReplyView::Io(Err(err))) => Some(
                V2ManagerErrorView::WrappedIo(WrappedIoErrorView::CreateDir { err, path }),
            ),
            (RequestView::Metadata { path }, ReplyView::Io(Err(err))) => Some(
                V2ManagerErrorView::WrappedIo(WrappedIoErrorView::Other { err, path }),
            ),
            (RequestView::WriteFile { path, data }, ReplyView::Io(Err(err))) => Some(
                V2ManagerErrorView::WrappedIo(WrappedIoErrorView::Write { err, path, data }),
            ),
            (RequestView::ReadToString { path }, ReplyView::Text(Err(err))) => Some(
                V2ManagerErrorView::WrappedIo(WrappedIoErrorView::Read { err, path }),
            ),
            (RequestView::WriteCgroupFile { .. }, ReplyView::Wrapped(Err(e))) => Some(
                V2ManagerErrorView::WrappedIo(e),
            ),
            (RequestView::DeleteWithRetry { .. }, ReplyView::Wrapped(Err(e))) => Some(
                V2ManagerErrorView::WrappedIo(e),
            ),
            (RequestView::Apply { controller, .. }, ReplyView::Wrapped(Err(e))) => {
                match controller {
                    ControllerType::CpuSet => Some(V2ManagerErrorView::WrappedIo(e)),
                    ControllerType::Pids => Some(V2ManagerErrorView::WrappedIo(e)),
                    _ => None,
                }
            },
            (RequestView::Apply { controller, .. }, ReplyView::Subsystem(Err(e))) => {
                match controller {
                    ControllerType::Cpu => Some(V2ManagerErrorView::CpuController(e)),
                    ControllerType::HugeTlb => Some(V2ManagerErrorView::HugeTlbController(e)),
                    ControllerType::Io => Some(V2ManagerErrorView::IoController(e)),
                    ControllerType::Memory => Some(V2ManagerErrorView::MemoryController(e)),
                    _ => None,
                }
            },
            (RequestView::ApplyDevices { .. }, ReplyView::Subsystem(Err(e))) => Some(
                V2ManagerErrorView::DevicesController(e),
            ),
            (RequestView::ApplyUnified { .. }, ReplyView::Subsystem(Err(e))) => Some(
                V2ManagerErrorView::UnifiedController(e),
            ),
            _ => None,
        }
    }
}

/// Whether an operation keeps to an exchange and then ends like this.
pub open spec fn keeps_to<O: Operation>(
    s: O,
    steps: Seq<Step>,
    end: Result<(), V2ManagerErrorView>,
) -> bool
    decreases steps.len(),
{
    if steps.len() == 0 {
        s.end() == Some(end) && s.next_request() is None
    } else {
        &&& s.end() is None
        &&& s.next_request() == Some(steps[0].request)
        &&& forall|reply: ReplyView| #[trigger]
            fine(steps[0], reply) ==> keeps_to(s.told(reply), steps.skip(1), end)
        &&& forall|reply: ReplyView|
            (#[trigger] reported(steps[0], reply)) matches Some(e) ==> s.told(reply).end() == Some(
                Err::<(), V2ManagerErrorView>(e),
            )
    }
}

/// Keeping to an exchange goes for each part of it: after good replies to the
/// first steps the next one is asked for, a failure there is the end of the
/// operation, and after good replies to all of them it ends as stated.
pub proof fn lemma_keeps_to<O: Operation>(
    s: O,
    steps: Seq<Step>,
    end: Result<(), V2ManagerErrorView>,
    replies: Seq<ReplyView>,
    reply: ReplyView,
)
    requires
        keeps_to(s, steps, end),
        replies.len() <= steps.len(),
        forall|i: int| 0 <= i < replies.len() ==> fine(#[trigger] steps[i], replies[i]),
    ensures
        ({
            let n = replies.len() as int;
            let t = played(s, replies);
            if n < steps.len() {
                &&& t.end() is None
                &&& t.next_request() == Some(steps[n].request)
                &&& reported(steps[n], reply) matches Some(e) ==> t.told(reply).end() == Some(
                    Err::<(), V2ManagerErrorView>(e),
                )
            } else {
                t.end() == Some(end) && t.next_request() is None
            }
        }),
    decreases replies.len(),
{
    if replies.len() > 0 {
        let rest = replies.skip(1);
        let later = steps.skip(1);
        assert(fine(steps[0], replies[0]));
        assert forall|i: int| 0 <= i < rest.len() implies fine(#[trigger] later[i], rest[i]) by {
            assert(fine(steps[i + 1], replies[i + 1]));
        }
        lemma_keeps_to(s.told(replies[0]), later, end, rest, reply);
    } else if steps.len() > 0 {
        assert(reported(steps[0], reply) is Some || reported(steps[0], reply) is None);
    }
}

/// The file of this name in a directory.
pub open spec fn file(dir: Seq<u8>, name: Seq<char>) -> Seq<u8> {
    path::join(dir, vstd::utf8::encode_utf8(name))
}

/// The write that puts a process into a cgroup.
pub open spec fn attach(m: Manager, pid: i32) -> Step {
    step(
        RequestView::WriteCgroupFile {
            path: file(m.full(), "cgroup.procs"@),
            data: decimal::decimal(pid as int),
        },
        ReplyView::Wrapped(Ok(())),
    )
}

/// The writes that switch on each controller of the list for what is below a
/// directory. What fails as is expected elsewhere counts only where the
/// directory was not `there` before.
pub open spec fn switch_on(dir: Seq<u8>, list: Seq<ControllerType>, there: bool) -> Seq<Step> {
    Seq::new(
        list.len(),
        |i: int|
            Step {
                request: RequestView::WriteCgroupFile {
                    path: file(dir, "cgroup.subtree_control"@),
                    data: text_laws::spelled(list[i]),
                },
                good: if there {
                    Good::WrittenOrExpected
                } else {
                    Good::Exactly(ReplyView::Wrapped(Ok(())))
                },
            },
    )
}

/// What is done about one directory: it is looked for, made and looked at if it
/// is not there, and then has the controllers switched on, if `through` tells
/// that this is done there.
pub open spec fn settle(
    dir: Seq<u8>,
    list: Seq<ControllerType>,
    there: bool,
    through: bool,
) -> Seq<Step> {
    seq![step(RequestView::Exists { path: dir }, ReplyView::Exists(there))] + (if there {
        Seq::empty()
    } else {
        seq![
            step(RequestView::CreateDir { path: dir }, ReplyView::Io(Ok(()))),
            step(RequestView::Metadata { path: dir }, ReplyView::Io(Ok(()))),
        ]
    }) + (if through {
        switch_on(dir, list, there)
    } else {
        Seq::empty()
    })
}

/// What is done from directory `k` on, where `there` tells which are there:
/// each directory down to the cgroup itself is settled, with the controllers
/// switched on in each but the last and the mount point, and the process is put
/// into the cgroup.
pub open spec fn from_directory(
    m: Manager,
    pid: i32,
    list: Seq<ControllerType>,
    there: Seq<bool>,
    k: int,
) -> Seq<Step>
    decreases path::names(m.cgroup()).len() - k + 1,
{
    let depth = path::names(m.cgroup()).len();
    if k > depth {
        seq![attach(m, pid)]
    } else {
        settle(
            create_laws::directory(m, k),
            list,
            there[k - 1],
            k < depth && path::names(m.cgroup())[k - 1] != seq![0x2eu8],
        ) + from_directory(m, pid, list, there, k + 1)
    }
}

/// The creation of a cgroup for a process, where the hierarchy offers the
/// controllers of the list.
pub open spec fn creation(
    m: Manager,
    pid: i32,
    list: Seq<ControllerType>,
    there: Seq<bool>,
) -> Seq<Step> {
    seq![
        step(
            RequestView::AvailableControllers { root: m.root() },
            ReplyView::Controllers(Ok(list)),
        ),
    ] + from_directory(m, pid, list, there, 1)
}

/// Whether a creation is that of `pid` and `m` with these controllers.
spec fn creates(s: CreateCgroupView, m: Manager, pid: i32, list: Seq<ControllerType>) -> bool {
    &&& s.root == m.root()
    &&& s.full == m.full()
    &&& s.steps == path::names(m.cgroup())
    &&& s.pid == pid
    &&& s.controllers == crate::create::switches(list)
}

/// Which failures are tolerated.
proof fn lemma_tolerated(e: WrappedIoErrorView)
    ensures
        subtree::tolerated(e) <==> model_laws::expected_elsewhere(e.inner()),
{
    match e {
        WrappedIoErrorView::Open { err, path } => {
            model_laws::law_tolerated_by_number_alone(err, path, Seq::empty());
        },
        WrappedIoErrorView::Write { err, path, data } => {
            model_laws::law_tolerated_by_number_alone(err, path, data);
        },
        WrappedIoErrorView::Read { err, path } => {
            model_laws::law_tolerated_by_number_alone(err, path, Seq::empty());
        },
        WrappedIoErrorView::CreateDir { err, path } => {
            model_laws::law_tolerated_by_number_alone(err, path, Seq::empty());
        },
        WrappedIoErrorView::Other { err, path } => {
            model_laws::law_tolerated_by_number_alone(err, path, Seq::empty());
        },
    }
}

/// The end of a creation.
proof fn lemma_attach(s: CreateCgroupView, m: Manager, pid: i32, list: Seq<ControllerType>)
    requires
        creates(s, m, pid, list),
        s.phase is Attach,
    ensures
        keeps_to(s, seq![attach(m, pid)], Ok(())),
{
    let steps = seq![attach(m, pid)];
    assert(steps.skip(1) =~= Seq::<Step>::empty());
    assert forall|reply: ReplyView| #[trigger] fine(steps[0], reply) implies keeps_to(
        s.told(reply),
        steps.skip(1),
        Ok(()),
    ) by {
        assert(s.told(reply) == s.after(reply));
    }
    assert forall|reply: ReplyView| (#[trigger] reported(steps[0], reply)) matches Some(e) implies s.told(
        reply,
    ).end() == Some(Err::<(), V2ManagerErrorView>(reported(steps[0], reply)->0)) by {
        assert(s.told(reply) == s.after(reply));
    }
}

/// The writes of controllers in a directory.
#[verifier::spinoff_prover]
proof fn lemma_switch_on(
    s: CreateCgroupView,
    m: Manager,
    pid: i32,
    list: Seq<ControllerType>,
    there: bool,
    w: WriteControllersView,
    rest: Seq<Step>,
)
    requires
        creates(s, m, pid, list),
        s.wf(),
        s.phase == CreatePhaseView::Enable(w),
        w.strict == !there,
        w.failure is None,
        keeps_to(s.arrive(s.index + 1), rest, Ok(())),
    ensures
        keeps_to(s, switch_on(s.current(), list, there).skip(w.passed) + rest, Ok(())),
    decreases list.len() - w.passed,
{
    text_laws::law_every_controller_is_switched_on(list);
    let all = switch_on(s.current(), list, there);
    let steps = all.skip(w.passed) + rest;
    assert(steps[0] == all[w.passed]);
    assert(steps.skip(1) =~= all.skip(w.passed + 1) + rest);
    let passed = WriteControllersView { passed: w.passed + 1, ..w };
    let t = s.enabling(passed);
    if w.passed + 1 < list.len() {
        assert(t.phase == CreatePhaseView::Enable(passed));
        assert(t.arrive(t.index + 1) == s.arrive(s.index + 1));
        assert(t.current() == s.current());
        lemma_switch_on(t, m, pid, list, there, passed, rest);
    } else {
        assert(all.skip(w.passed + 1) + rest =~= rest);
        assert(t == s.arrive(s.index + 1));
    }
    assert(keeps_to(t, steps.skip(1), Ok(())));
    assert forall|reply: ReplyView| #[trigger] fine(steps[0], reply) implies keeps_to(
        s.told(reply),
        steps.skip(1),
        Ok(()),
    ) by {
        match reply {
            ReplyView::Wrapped(Err(e)) => {
                lemma_tolerated(e);
            },
            _ => {},
        }
        assert(w.after(reply) == passed);
        assert(s.told(reply) == t);
    }
    assert forall|reply: ReplyView| (#[trigger] reported(steps[0], reply)) matches Some(e) implies s.told(
        reply,
    ).end() == Some(Err::<(), V2ManagerErrorView>(reported(steps[0], reply)->0)) by {
        match reply {
            ReplyView::Wrapped(Err(e)) => {
                lemma_tolerated(e);
            },
            _ => {},
        }
        assert(s.told(reply) == s.after(reply));
    }
}

/// A directory that is in place.
#[verifier::spinoff_prover]
proof fn lemma_in_place(
    s: CreateCgroupView,
    m: Manager,
    pid: i32,
    list: Seq<ControllerType>,
    there: bool,
    rest: Seq<Step>,
)
    requires
        creates(s, m, pid, list),
        s.wf(),
        s.at_directory(),
        keeps_to(s.arrive(s.index + 1), rest, Ok(())),
    ensures
        keeps_to(
            s.settle(!there),
            (if s.index + 1 < s.steps.len() && s.steps[s.index] != seq![0x2eu8] {
                switch_on(s.current(), list, there)
            } else {
                Seq::empty()
            }) + rest,
            Ok(()),
        ),
{
    text_laws::law_every_controller_is_switched_on(list);
    let w = WriteControllersView::start(s.current(), s.controllers, !there);
    let all = switch_on(s.current(), list, there);
    assert(path::dot() =~= seq![0x2eu8]);
    assert(Seq::<Step>::empty() + rest =~= rest);
    if s.index + 1 < s.steps.len() && s.steps[s.index] != seq![0x2eu8] {
        if list.len() == 0 {
            assert(all + rest =~= rest);
        } else {
            let t = CreateCgroupView { phase: CreatePhaseView::Enable(w), ..s };
            assert(s.settle(!there) == t);
            assert(t.current() == s.current());
            assert(t.arrive(t.index + 1) == s.arrive(s.index + 1));
            lemma_switch_on(t, m, pid, list, there, w, rest);
            assert(all.skip(0) =~= all);
        }
    }
}

/// One request with one good reply, and what follows.
proof fn lemma_step<O: Operation>(
    s: O,
    request: RequestView,
    good: ReplyView,
    rest: Seq<Step>,
    end: Result<(), V2ManagerErrorView>,
)
    requires
        s.end() is None,
        s.next_request() == Some(request),
        keeps_to(s.told(good), rest, end),
        forall|reply: ReplyView|
            (#[trigger] reported(step(request, good), reply)) matches Some(e) ==> s.told(reply).end()
                == Some(Err::<(), V2ManagerErrorView>(e)),
    ensures
        keeps_to(s, seq![step(request, good)] + rest, end),
{
    let steps = seq![step(request, good)] + rest;
    assert(steps.skip(1) =~= rest);
    assert(steps[0] == step(request, good));
    assert forall|reply: ReplyView| (#[trigger] reported(steps[0], reply)) matches Some(e) implies s.told(
        reply,
    ).end() == Some(Err::<(), V2ManagerErrorView>(reported(steps[0], reply)->0)) by {
        assert(reported(step(request, good), reply) is Some);
    }
}

/// From a directory on.
#[verifier::spinoff_prover]
proof fn lemma_from_directory(
    s: CreateCgroupView,
    m: Manager,
    pid: i32,
    list: Seq<ControllerType>,
    there: Seq<bool>,
    k: int,
)
    requires
        creates(s, m, pid, list),
        1 <= k <= path::names(m.cgroup()).len() + 1,
    ensures
        keeps_to(s.arrive(k - 1), from_directory(m, pid, list, there, k), Ok(())),
    decreases path::names(m.cgroup()).len() - k + 1,
{
    let depth = path::names(m.cgroup()).len();
    let a = s.arrive(k - 1);
    if k > depth {
        lemma_attach(a, m, pid, list);
    } else {
        let dir = create_laws::directory(m, k);
        let rest = from_directory(m, pid, list, there, k + 1);
        let through = k < depth && path::names(m.cgroup())[k - 1] != seq![0x2eu8];
        let writes = if through {
            switch_on(dir, list, there[k - 1])
        } else {
            Seq::empty()
        };
        lemma_from_directory(s, m, pid, list, there, k + 1);
        assert(a.current() == dir);
        assert(a.arrive(k) == s.arrive(k));
        if there[k - 1] {
            lemma_in_place(a, m, pid, list, true, rest);
            assert(a.told(ReplyView::Exists(true)) == a.settle(false));
            lemma_step(
                a,
                RequestView::Exists { path: dir },
                ReplyView::Exists(true),
                writes + rest,
                Ok(()),
            );
            assert(seq![
                step(RequestView::Exists { path: dir }, ReplyView::Exists(true)),
            ] + (writes + rest) =~= from_directory(m, pid, list, there, k));
        } else {
            let b = CreateCgroupView { phase: CreatePhaseView::MakeDir, ..a };
            let c = CreateCgroupView { phase: CreatePhaseView::Inspect, ..a };
            assert(b.current() == dir && c.current() == dir);
            assert(c.arrive(k) == s.arrive(k));
            lemma_in_place(c, m, pid, list, false, rest);
            assert(c.told(ReplyView::Io(Ok(()))) == c.settle(true));
            let looked = step(RequestView::Metadata { path: dir }, ReplyView::Io(Ok(())));
            let made = step(RequestView::CreateDir { path: dir }, ReplyView::Io(Ok(())));
            let probed = step(RequestView::Exists { path: dir }, ReplyView::Exists(false));
            lemma_step(
                c,
                RequestView::Metadata { path: dir },
                ReplyView::Io(Ok(())),
                writes + rest,
                Ok(()),
            );
            assert(b.told(ReplyView::Io(Ok(()))) == c);
            lemma_step(
                b,
                RequestView::CreateDir { path: dir },
                ReplyView::Io(Ok(())),
                seq![looked] + (writes + rest),
                Ok(()),
            );
            assert(a.told(ReplyView::Exists(false)) == b);
            lemma_step(
                a,
                RequestView::Exists { path: dir },
                ReplyView::Exists(false),
                seq![made] + (seq![looked] + (writes + rest)),
                Ok(()),
            );
            assert(seq![probed] + (seq![made] + (seq![looked] + (writes + rest)))
                =~= from_directory(m, pid, list, there, k));
        }
    }
}

/// A creation keeps to its exchange.
proof fn lemma_creation(
    m: Manager,
    pid: i32,
    list: Seq<ControllerType>,
    there: Seq<bool>,
)
    ensures
        keeps_to(CreateCgroupView::start(m, pid), creation(m, pid, list, there), Ok(())),
{
    let s = CreateCgroupView::start(m, pid);
    let t = CreateCgroupView { controllers: crate::create::switches(list), ..s };
    lemma_from_directory(t, m, pid, list, there, 1);
    assert(s.told(ReplyView::Controllers(Ok(list))) == t.arrive(0));
    lemma_step(
        s,
        RequestView::AvailableControllers { root: m.root() },
        ReplyView::Controllers(Ok(list)),
        from_directory(m, pid, list, there, 1),
        Ok(()),
    );
}

/// Creating a cgroup is this exchange, whichever controllers there are and
/// whichever directories are there: after good replies the next step is asked
/// for, and behind the last one the creation has gone well. A failure that
/// counts is the result, as it is reported at that step.
pub proof fn law_creation_is_this_exchange(
    m: Manager,
    pid: i32,
    list: Seq<ControllerType>,
    there: Seq<bool>,
    replies: Seq<ReplyView>,
    reply: ReplyView,
)
    requires
        there.len() == path::names(m.cgroup()).len(),
        replies.len() <= creation(m, pid, list, there).len(),
        forall|i: int|
            0 <= i < replies.len() ==> fine(
                #[trigger] creation(m, pid, list, there)[i],
                replies[i],
            ),
    ensures
        ({
            let n = replies.len() as int;
            let t = played(CreateCgroupView::start(m, pid), replies);
            if n < creation(m, pid, list, there).len() {
                &&& t.result() is None
                &&& t.asks() == Some(creation(m, pid, list, there)[n].request)
                &&& reported(creation(m, pid, list, there)[n], reply) matches Some(e) ==> t.after(
                    reply,
                ).result() == Some(Err::<(), V2ManagerErrorView>(e))
            } else {
                t.result() == Some(Ok::<(), V2ManagerErrorView>(())) && t.asks() is None
            }
        }),
{
    lemma_creation(m, pid, list, there);
    lemma_keeps_to(
        CreateCgroupView::start(m, pid),
        creation(m, pid, list, there),
        Ok(()),
        replies,
        reply,
    );
}

/// Whether two creations ask for the same and end alike.
pub open spec fn alike(s: CreateCgroupView, t: CreateCgroupView) -> bool {
    s.asks() == t.asks() && s.result() == t.result()
}

/// Adding a process first finds out whether the cgroup is there. Where it is
/// not, adding goes on exactly as creating the cgroup does, whatever the
/// replies. Where it is, the process is put into it and nothing else is done.
pub proof fn law_adding_creates_what_is_missing(m: Manager, pid: i32, replies: Seq<ReplyView>)
    ensures
        CreateCgroupView::start_add(m, pid).asks() == Some(RequestView::Exists { path: m.full() }),
        CreateCgroupView::start_add(m, pid).result() is None,
        alike(
            played(CreateCgroupView::start_add(m, pid), seq![ReplyView::Exists(false)] + replies),
            played(CreateCgroupView::start(m, pid), replies),
        ),
        alike(
            create_laws::run(
                CreateCgroupView::start_add(m, pid),
                seq![ReplyView::Exists(false)] + replies,
            ),
            create_laws::run(CreateCgroupView::start(m, pid), replies),
        ),
        keeps_to(
            CreateCgroupView::start_add(m, pid).after(ReplyView::Exists(true)),
            seq![attach(m, pid)],
            Ok(()),
        ),
{
    let s = CreateCgroupView::start_add(m, pid);
    let all = seq![ReplyView::Exists(false)] + replies;
    assert(all.skip(1) =~= replies);
    assert(s.told(ReplyView::Exists(false)) == CreateCgroupView::start(m, pid));
    lemma_run_front(s, ReplyView::Exists(false), replies);
    assert(crate::create::switches(Seq::empty()) =~= Seq::<Seq<char>>::empty());
    lemma_attach(s.after(ReplyView::Exists(true)), m, pid, Seq::empty());
}

/// A first reply is one that comes before the others.
proof fn lemma_run_front(s: CreateCgroupView, first: ReplyView, replies: Seq<ReplyView>)
    ensures
        create_laws::run(s, seq![first] + replies) == create_laws::run(s.after(first), replies),
    decreases replies.len(),
{
    let all = seq![first] + replies;
    if replies.len() == 0 {
        assert(all.drop_last() =~= Seq::<ReplyView>::empty());
        assert(create_laws::run(s, all.drop_last()) == s);
        assert(all.last() == first);
    } else {
        assert(all.drop_last() =~= seq![first] + replies.drop_last());
        lemma_run_front(s, first, replies.drop_last());
    }
}

/// The removal of the directory of a cgroup, in up to four attempts with at
/// most a tenth of a second from one to the next.
pub open spec fn delete(m: Manager) -> Step {
    step(
        RequestView::DeleteWithRetry { path: m.full(), retries: 4, limit_millis: 100 },
        ReplyView::Wrapped(Ok(())),
    )
}

/// The signals to processes, one to each, in order.
pub open spec fn kill(list: Seq<i32>) -> Seq<Step> {
    Seq::new(
        list.len(),
        |i: int| step(RequestView::Kill { pid: list[i] }, ReplyView::Signalled),
    )
}

/// The removal of a cgroup that is there, where the kernel kills its processes.
pub open spec fn removal_by_kernel(m: Manager) -> Seq<Step> {
    seq![
        step(RequestView::Exists { path: m.full() }, ReplyView::Exists(true)),
        step(
            RequestView::Exists { path: file(m.full(), "cgroup.kill"@) },
            ReplyView::Exists(true),
        ),
        step(
            RequestView::WriteFile { path: file(m.full(), "cgroup.kill"@), data: "1"@ },
            ReplyView::Io(Ok(())),
        ),
        delete(m),
    ]
}

/// The removal of a cgroup that is there, where the kernel does not do that and
/// the list of its processes is this text: each process that it lists is killed,
/// and the directory goes unless a line of the text is at fault.
pub open spec fn removal_by_list(
    m: Manager,
    text: Seq<char>,
    list: Seq<i32>,
    fault: Option<ParseIntError>,
) -> Seq<Step> {
    seq![
        step(RequestView::Exists { path: m.full() }, ReplyView::Exists(true)),
        step(
            RequestView::Exists { path: file(m.full(), "cgroup.kill"@) },
            ReplyView::Exists(false),
        ),
        step(
            RequestView::ReadToString { path: file(m.full(), "cgroup.procs"@) },
            ReplyView::Text(Ok(text)),
        ),
    ] + kill(list) + (if fault is None {
        seq![delete(m)]
    } else {
        Seq::empty()
    })
}

/// The removal of a cgroup that is there.
pub open spec fn removal(
    m: Manager,
    kernel: bool,
    text: Seq<char>,
    list: Seq<i32>,
    fault: Option<ParseIntError>,
) -> Seq<Step> {
    if kernel {
        removal_by_kernel(m)
    } else {
        removal_by_list(m, text, list, fault)
    }
}

/// How a removal by the list of processes ends when nothing else fails.
pub open spec fn end_by_list(m: Manager, fault: Option<ParseIntError>) -> Result<
    (),
    V2ManagerErrorView,
> {
    match fault {
        None => Ok(()),
        Some(kind) => Err(
            V2ManagerErrorView::WrappedIo(
                WrappedIoErrorView::Other {
                    err: IoError::InvalidData(kind),
                    path: file(m.full(), "cgroup.procs"@),
                },
            ),
        ),
    }
}

/// The end of a removal.
proof fn lemma_delete(m: Manager)
    ensures
        keeps_to(
            RemoveCgroupView::start(m).at(RemovePhaseView::Delete),
            seq![delete(m)],
            Ok(()),
        ),
{
    let s = RemoveCgroupView::start(m).at(RemovePhaseView::Delete);
    let done = s.told(ReplyView::Wrapped(Ok(())));
    assert(done == s.at(RemovePhaseView::Done(Ok(()))));
    lemma_step(
        s,
        delete(m).request,
        ReplyView::Wrapped(Ok(())),
        Seq::empty(),
        Ok(()),
    );
    assert(seq![step(delete(m).request, ReplyView::Wrapped(Ok(())))] + Seq::<Step>::empty()
        =~= seq![delete(m)]);
}

/// The signals of a removal, and what follows.
#[verifier::spinoff_prover]
proof fn lemma_kill(m: Manager, list: Seq<i32>, fault: Option<ParseIntError>)
    ensures
        keeps_to(
            RemoveCgroupView::start(m).signalling(list, fault),
            kill(list) + (if fault is None {
                seq![delete(m)]
            } else {
                Seq::empty()
            }),
            end_by_list(m, fault),
        ),
    decreases list.len(),
{
    let s = RemoveCgroupView::start(m);
    let tail = if fault is None {
        seq![delete(m)]
    } else {
        Seq::empty()
    };
    if list.len() == 0 {
        assert(kill(list) + tail =~= tail);
        if fault is None {
            lemma_delete(m);
        }
    } else {
        let t = s.signalling(list, fault);
        lemma_kill(m, list.skip(1), fault);
        assert(t.told(ReplyView::Signalled) == s.signalling(list.skip(1), fault));
        lemma_step(
            t,
            RequestView::Kill { pid: list[0] },
            ReplyView::Signalled,
            kill(list.skip(1)) + tail,
            end_by_list(m, fault),
        );
        assert(seq![step(RequestView::Kill { pid: list[0] }, ReplyView::Signalled)] + (kill(
            list.skip(1),
        ) + tail) =~= kill(list) + tail);
    }
}

/// A removal by the kernel keeps to its exchange.
#[verifier::spinoff_prover]
proof fn lemma_removal_by_kernel(m: Manager)
    ensures
        keeps_to(RemoveCgroupView::start(m), removal_by_kernel(m), Ok(())),
{
    let s = RemoveCgroupView::start(m);
    let probe = s.at(RemovePhaseView::ProbeKill);
    let all = s.at(RemovePhaseView::KillAll);
    let full = RequestView::Exists { path: m.full() };
    let kill_file = file(m.full(), "cgroup.kill"@);
    let write = RequestView::WriteFile { path: kill_file, data: "1"@ };
    lemma_delete(m);
    assert(all.told(ReplyView::Io(Ok(()))) == s.at(RemovePhaseView::Delete));
    lemma_step(all, write, ReplyView::Io(Ok(())), seq![delete(m)], Ok(()));
    let by_kernel = seq![step(write, ReplyView::Io(Ok(())))] + seq![delete(m)];
    assert(probe.told(ReplyView::Exists(true)) == all);
    let kernel = RequestView::Exists { path: kill_file };
    lemma_step(probe, kernel, ReplyView::Exists(true), by_kernel, Ok(()));
    assert(s.told(ReplyView::Exists(true)) == probe);
    let with_probe = seq![step(kernel, ReplyView::Exists(true))] + by_kernel;
    lemma_step(s, full, ReplyView::Exists(true), with_probe, Ok(()));
    assert(seq![step(full, ReplyView::Exists(true))] + with_probe =~= removal_by_kernel(m));
}

/// A removal by the list of processes keeps to its exchange.
#[verifier::spinoff_prover]
proof fn lemma_removal_by_list(
    m: Manager,
    text: Seq<char>,
    list: Seq<i32>,
    fault: Option<ParseIntError>,
)
    requires
        text_laws::lists(vstd::utf8::encode_utf8(text), list, fault),
    ensures
        keeps_to(
            RemoveCgroupView::start(m),
            removal_by_list(m, text, list, fault),
            end_by_list(m, fault),
        ),
{
    let s = RemoveCgroupView::start(m);
    let probe = s.at(RemovePhaseView::ProbeKill);
    let read = s.at(RemovePhaseView::ReadProcs);
    let full = RequestView::Exists { path: m.full() };
    let kernel = RequestView::Exists { path: file(m.full(), "cgroup.kill"@) };
    let reading = RequestView::ReadToString { path: file(m.full(), "cgroup.procs"@) };
    let end = end_by_list(m, fault);
    let killing = kill(list) + (if fault is None {
        seq![delete(m)]
    } else {
        Seq::empty()
    });
    assert(read.told(ReplyView::Text(Ok(text))) == s.signalling(list, fault)) by {
        text_laws::law_list_is_read_line_by_line(vstd::utf8::encode_utf8(text), list, fault);
    }
    lemma_kill(m, list, fault);
    lemma_step(read, reading, ReplyView::Text(Ok(text)), killing, end);
    let from_read = seq![step(reading, ReplyView::Text(Ok(text)))] + killing;
    assert(probe.told(ReplyView::Exists(false)) == read);
    lemma_step(probe, kernel, ReplyView::Exists(false), from_read, end);
    let from_probe = seq![step(kernel, ReplyView::Exists(false))] + from_read;
    assert(s.told(ReplyView::Exists(true)) == probe);
    lemma_step(s, full, ReplyView::Exists(true), from_probe, end);
    assert(seq![step(full, ReplyView::Exists(true))] + from_probe =~= removal_by_list(
        m,
        text,
        list,
        fault,
    ));
}

/// Removing a cgroup is one of these exchanges: nothing where it is not there,
/// the one by the kernel where the kernel can, and else the one by the list of
/// processes. After good replies the next step is asked for, and behind the
/// last one the removal ends as stated. A failure is the result, as it is
/// reported at that step.
pub proof fn law_removal_is_this_exchange(
    m: Manager,
    kernel: bool,
    text: Seq<char>,
    list: Seq<i32>,
    fault: Option<ParseIntError>,
    replies: Seq<ReplyView>,
    reply: ReplyView,
)
    requires
        text_laws::lists(vstd::utf8::encode_utf8(text), list, fault),
        replies.len() <= removal(m, kernel, text, list, fault).len(),
        forall|i: int|
            0 <= i < replies.len() ==> fine(
                #[trigger] removal(m, kernel, text, list, fault)[i],
                replies[i],
            ),
    ensures
        RemoveCgroupView::start(m).after(ReplyView::Exists(false)).result() == Some(
            Ok::<(), V2ManagerErrorView>(()),
        ),
        ({
            let steps = removal(m, kernel, text, list, fault);
            let n = replies.len() as int;
            let t = played(RemoveCgroupView::start(m), replies);
            if n < steps.len() {
                &&& t.result() is None
                &&& t.asks() == Some(steps[n].request)
                &&& reported(steps[n], reply) matches Some(e) ==> t.after(reply).result() == Some(
                    Err::<(), V2ManagerErrorView>(e),
                )
            } else {
                &&& t.result() == Some(
                    if kernel {
                        Ok::<(), V2ManagerErrorView>(())
                    } else {
                        end_by_list(m, fault)
                    },
                )
                &&& t.asks() is None
            }
        }),
{
    lemma_removal_by_kernel(m);
    lemma_removal_by_list(m, text, list, fault);
    let steps = removal(m, kernel, text, list, fault);
    let end = if kernel {
        Ok(())
    } else {
        end_by_list(m, fault)
    };
    lemma_keeps_to(RemoveCgroupView::start(m), steps, end, replies, reply);
}

/// Whoever is listed one to a line is sent a signal, however many there are,
/// and only then the directory goes.
pub proof fn law_every_listed_process_is_killed(
    m: Manager,
    text: Seq<char>,
    list: Seq<i32>,
    k: int,
)
    requires
        vstd::utf8::encode_utf8(text) == text_laws::listing(list),
        0 <= k <= list.len(),
    ensures
        ({
            let replies = seq![
                ReplyView::Exists(true),
                ReplyView::Exists(false),
                ReplyView::Text(Ok(text)),
            ] + Seq::new(k as nat, |i: int| ReplyView::Signalled);
            played(RemoveCgroupView::start(m), replies).asks() == Some(
                if k < list.len() {
                    RequestView::Kill { pid: list[k] }
                } else {
                    RequestView::DeleteWithRetry { path: m.full(), retries: 4, limit_millis: 100 }
                },
            )
        }),
{
    let replies = seq![
        ReplyView::Exists(true),
        ReplyView::Exists(false),
        ReplyView::Text(Ok(text)),
    ] + Seq::new(k as nat, |i: int| ReplyView::Signalled);
    text_laws::law_every_listed_process_is_read(list);
    text_laws::law_list_is_read_line_by_line(text_laws::listing(list), list, None);
    let steps = removal(m, false, text, list, None);
    assert forall|i: int| 0 <= i < replies.len() implies fine(#[trigger] steps[i], replies[i]) by {
        if i >= 3 {
            assert(steps[i] == kill(list)[i - 3]);
        }
    }
    if k < list.len() {
        assert(steps[k + 3] == kill(list)[k]);
    } else {
        assert(steps[k + 3] == delete(m));
    }
    law_removal_is_this_exchange(
        m,
        false,
        text,
        list,
        None,
        replies,
        ReplyView::Signalled,
    );
}

/// One controller that is set.
pub open spec fn set(m: Manager, controller: ControllerType) -> Step {
    step(
        RequestView::Apply { controller, path: m.full() },
        if controller == ControllerType::CpuSet || controller == ControllerType::Pids {
            ReplyView::Wrapped(Ok(()))
        } else {
            ReplyView::Subsystem(Ok(()))
        },
    )
}

/// What is set behind the controllers: the unified resources, with the
/// controllers that the hierarchy offers.
pub open spec fn set_unified(m: Manager, list: Seq<ControllerType>) -> Seq<Step> {
    seq![
        step(
            RequestView::AvailableControllers { root: m.root() },
            ReplyView::Controllers(Ok(list)),
        ),
        step(
            RequestView::ApplyUnified { path: m.full(), available: list },
            ReplyView::Subsystem(Ok(())),
        ),
    ]
}

/// The setting of all resources of a cgroup, in order.
pub open spec fn setting(m: Manager, devices: bool, list: Seq<ControllerType>) -> Seq<Step> {
    seq![
        set(m, ControllerType::Cpu),
        set(m, ControllerType::CpuSet),
        set(m, ControllerType::HugeTlb),
        set(m, ControllerType::Io),
        set(m, ControllerType::Memory),
        set(m, ControllerType::Pids),
    ] + (if devices {
        seq![step(RequestView::ApplyDevices { path: m.full() }, ReplyView::Subsystem(Ok(())))]
    } else {
        Seq::empty()
    }) + set_unified(m, list)
}

/// The setting of the unified resources.
proof fn lemma_set_unified(m: Manager, devices: bool, list: Seq<ControllerType>)
    ensures
        keeps_to(
            ApplyResourcesView::start(m, devices).pseudo(0),
            set_unified(m, list),
            Ok(()),
        ),
{
    text_laws::law_controllers_come_in_order();
    reveal_with_fuel(ApplyResourcesView::pseudo, 4);
    let s = ApplyResourcesView::start(m, devices);
    let asking = s.at(ApplyPhaseView::ListControllers(2));
    let unified = s.at(ApplyPhaseView::Unified(2, list));
    assert(s.pseudo(0) == asking);
    assert(unified.told(ReplyView::Subsystem(Ok(()))) == s.at(ApplyPhaseView::Done(Ok(()))));
    let apply = RequestView::ApplyUnified { path: m.full(), available: list };
    lemma_step(unified, apply, ReplyView::Subsystem(Ok(())), Seq::empty(), Ok(()));
    let last = seq![step(apply, ReplyView::Subsystem(Ok(())))] + Seq::<Step>::empty();
    assert(asking.told(ReplyView::Controllers(Ok(list))) == unified);
    let available = RequestView::AvailableControllers { root: m.root() };
    lemma_step(asking, available, ReplyView::Controllers(Ok(list)), last, Ok(()));
    assert(seq![step(available, ReplyView::Controllers(Ok(list)))] + last =~= set_unified(m, list));
}

/// The setting from the controller with this index on.
#[verifier::spinoff_prover]
proof fn lemma_setting(m: Manager, devices: bool, list: Seq<ControllerType>, i: int)
    requires
        0 <= i <= 6,
    ensures
        keeps_to(
            ApplyResourcesView::start(m, devices).controller(i),
            setting(m, devices, list).skip(i),
            Ok(()),
        ),
    decreases 6 - i,
{
    text_laws::law_controllers_come_in_order();
    let s = ApplyResourcesView::start(m, devices);
    let all = setting(m, devices, list);
    let unified = set_unified(m, list);
    if i == 6 {
        lemma_set_unified(m, devices, list);
        if devices {
            let t = s.at(ApplyPhaseView::Devices);
            let rules = RequestView::ApplyDevices { path: m.full() };
            assert(t.told(ReplyView::Subsystem(Ok(()))).phase == s.pseudo(0).phase) by {
                reveal_with_fuel(ApplyResourcesView::pseudo, 4);
            }
            assert(t.pseudo(0) == s.pseudo(0)) by {
                reveal_with_fuel(ApplyResourcesView::pseudo, 4);
            }
            lemma_step(t, rules, ReplyView::Subsystem(Ok(())), unified, Ok(()));
            assert(seq![step(rules, ReplyView::Subsystem(Ok(())))] + unified =~= all.skip(6));
        } else {
            assert(all.skip(6) =~= unified);
        }
    } else {
        lemma_setting(m, devices, list, i + 1);
        let t = s.at(ApplyPhaseView::Controller(i));
        let c = crate::controller_type::CONTROLLER_TYPES@[i];
        let good = if c == ControllerType::CpuSet || c == ControllerType::Pids {
            ReplyView::Wrapped(Ok(()))
        } else {
            ReplyView::Subsystem(Ok(()))
        };
        assert(s.controller(i) == t);
        assert(t.controller(i + 1) == s.controller(i + 1)) by {
            reveal_with_fuel(ApplyResourcesView::pseudo, 4);
        }
        assert(t.told(good) == s.controller(i + 1));
        lemma_step(
            t,
            RequestView::Apply { controller: c, path: m.full() },
            good,
            all.skip(i + 1),
            Ok(()),
        );
        assert(all[i] == step(RequestView::Apply { controller: c, path: m.full() }, good));
        assert(seq![all[i]] + all.skip(i + 1) =~= all.skip(i));
    }
}

/// Setting the resources of a cgroup is this exchange: after good replies the
/// next step is asked for, and behind the last one all is set. A failure is the
/// result, as it is reported at that step.
pub proof fn law_setting_is_this_exchange(
    m: Manager,
    devices: bool,
    list: Seq<ControllerType>,
    replies: Seq<ReplyView>,
    reply: ReplyView,
)
    requires
        replies.len() <= setting(m, devices, list).len(),
        forall|i: int|
            0 <= i < replies.len() ==> fine(#[trigger] setting(m, devices, list)[i], replies[i]),
    ensures
        ({
            let n = replies.len() as int;
            let t = played(ApplyResourcesView::start(m, devices), replies);
            if n < setting(m, devices, list).len() {
                &&& t.result() is None
                &&& t.asks() == Some(setting(m, devices, list)[n].request)
                &&& reported(setting(m, devices, list)[n], reply) matches Some(e) ==> t.after(
                    reply,
                ).result() == Some(Err::<(), V2ManagerErrorView>(e))
            } else {
                t.result() == Some(Ok::<(), V2ManagerErrorView>(())) && t.asks() is None
            }
        }),
{
    text_laws::law_controllers_come_in_order();
    lemma_setting(m, devices, list, 0);
    let steps = setting(m, devices, list);
    assert(steps.skip(0) =~= steps);
    assert(ApplyResourcesView::start(m, devices).controller(0) == ApplyResourcesView::start(
        m,
        devices,
    ));
    lemma_keeps_to(ApplyResourcesView::start(m, devices), steps, Ok(()), replies, reply);
}

/// Whether the writing of controllers goes on after this reply: the write went
/// well, or it failed as is expected in a cgroup of another manager and that
/// does not count here.
pub open spec fn goes_on(strict: bool, reply: ReplyView) -> bool {
    match reply {
        ReplyView::Wrapped(Ok(_)) => true,
        ReplyView::Wrapped(Err(e)) => !strict && model_laws::expected_elsewhere(e.inner()),
        _ => false,
    }
}

/// Writing controllers to a directory tries each of them once, in order. As long
/// as it goes on, the next one is written, and behind the last one it has gone
/// well. Any other failure is the result, and a reply that is none to a write
/// changes nothing.
pub proof fn law_writing_is_this_exchange(
    dir: Seq<u8>,
    controllers: Seq<Seq<char>>,
    strict: bool,
    replies: Seq<ReplyView>,
    reply: ReplyView,
)
    requires
        replies.len() <= controllers.len(),
        forall|i: int| 0 <= i < replies.len() ==> goes_on(strict, #[trigger] replies[i]),
    ensures
        ({
            let n = replies.len() as int;
            let t = subtree_laws::run(
                WriteControllersView::start(dir, controllers, strict),
                replies,
            );
            if n < controllers.len() {
                &&& t.result() is None
                &&& t.asks() == Some(
                    RequestView::WriteCgroupFile {
                        path: file(dir, "cgroup.subtree_control"@),
                        data: controllers[n],
                    },
                )
                &&& match reply {
                    ReplyView::Wrapped(Err(e)) => !goes_on(strict, reply) ==> t.after(
                        reply,
                    ).result() == Some(Err::<(), WrappedIoErrorView>(e)),
                    ReplyView::Wrapped(Ok(_)) => true,
                    _ => t.after(reply) == t,
                }
            } else {
                t.result() == Some(Ok::<(), WrappedIoErrorView>(())) && t.asks() is None
            }
        }),
{
    let s = WriteControllersView::start(dir, controllers, strict);
    assert forall|i: int| 0 <= i < replies.len() implies subtree_laws::passing(
        s,
        #[trigger] replies[i],
    ) by {
        assert(goes_on(strict, replies[i]));
        match replies[i] {
            ReplyView::Wrapped(Err(e)) => {
                lemma_tolerated(e);
            },
            _ => {},
        }
    }
    subtree_laws::lemma_passed(dir, controllers, strict, replies);
    match reply {
        ReplyView::Wrapped(Err(e)) => {
            lemma_tolerated(e);
        },
        _ => {},
    }
}

} // verus!
