//! Setting resources, freezing, and reading statistics.

use libcgroups::{
    ApplyResources, ControllerType, FreezerState, GatherStats, IoError, Manager, Reply, Request,
    Stats, StatsReply, SubsystemError, UnixPath, V2ManagerError, WrappedIoError,
};

fn text(path: &UnixPath) -> String {
    String::from_utf8(path.bytes.clone()).expect("path is text")
}

fn manager() -> Manager {
    Manager::new(UnixPath::from_text("/cg"), UnixPath::from_text("a")).unwrap()
}

fn failure(message: &str) -> SubsystemError {
    SubsystemError { message: message.to_string() }
}

fn file_failure() -> WrappedIoError {
    WrappedIoError::Open { err: IoError::Os(2), path: UnixPath::from_text("/cg/a/x") }
}

fn describe(request: &Request) -> String {
    match request {
        Request::Apply { controller, path } => format!("{} {}", controller.name(), text(path)),
        Request::ApplyDevices { path } => format!("devices {}", text(path)),
        Request::AvailableControllers { root } => format!("list {}", text(root)),
        Request::ApplyUnified { path, available } => format!("unified {} {available:?}", text(path)),
        other => panic!("not asked for here: {other:?}"),
    }
}

fn well(request: &Request) -> Reply {
    match request {
        Request::Apply { controller: ControllerType::CpuSet, .. }
        | Request::Apply { controller: ControllerType::Pids, .. } => Reply::Wrapped(Ok(())),
        Request::AvailableControllers { .. } => {
            Reply::Controllers(Ok(vec![ControllerType::Io, ControllerType::Cpu]))
        }
        _ => Reply::Subsystem(Ok(())),
    }
}

/// Answers well until what is asked for starts with `stop`.
fn until(mut run: ApplyResources, stop: &str) -> (Vec<String>, ApplyResources) {
    let mut log: Vec<String> = Vec::new();
    while let Some(request) = run.request() {
        let line = describe(&request);
        if !stop.is_empty() && line.starts_with(stop) {
            return (log, run);
        }
        log.push(line);
        run = run.resume(well(&request));
    }
    (log, run)
}

#[test]
fn everything_is_set_in_order() {
    let (log, run) = until(manager().apply(false), "");
    assert_eq!(
        log,
        vec![
            "cpu /cg/a",
            "cpuset /cg/a",
            "hugetlb /cg/a",
            "io /cg/a",
            "memory /cg/a",
            "pids /cg/a",
            "list /cg",
            "unified /cg/a [Io, Cpu]",
        ]
    );
    assert!(matches!(run.finish(), Some(Ok(()))));
}

#[test]
fn device_rules_come_behind_the_controllers() {
    let (log, run) = until(manager().apply(true), "");
    assert_eq!(log[5..8], ["pids /cg/a", "devices /cg/a", "list /cg"]);
    assert!(matches!(run.finish(), Some(Ok(()))));
}

#[test]
fn failures_are_reported_by_controller() {
    let fail = |stop: &str, reply: Reply| {
        let (_, run) = until(manager().apply(true), stop);
        let run = run.resume(reply);
        assert!(run.request().is_none());
        run.finish().unwrap().unwrap_err()
    };
    let broken = || Reply::Subsystem(Err(failure("broken")));
    let missing = || Reply::Wrapped(Err(file_failure()));
    assert!(matches!(fail("cpu ", broken()), V2ManagerError::CpuController(e) if e.message == "broken"));
    assert!(matches!(fail("cpuset", missing()), V2ManagerError::WrappedIo(WrappedIoError::Open { .. })));
    assert!(matches!(fail("hugetlb", broken()), V2ManagerError::HugeTlbController(_)));
    assert!(matches!(fail("io", broken()), V2ManagerError::IoController(_)));
    assert!(matches!(fail("memory", broken()), V2ManagerError::MemoryController(_)));
    assert!(matches!(fail("pids", missing()), V2ManagerError::WrappedIo(WrappedIoError::Open { .. })));
    assert!(matches!(fail("devices", broken()), V2ManagerError::DevicesController(_)));
    assert!(matches!(
        fail("list", Reply::Controllers(Err(failure("none")))),
        V2ManagerError::Util(e) if e.message == "none"
    ));
    assert!(matches!(fail("unified", broken()), V2ManagerError::UnifiedController(_)));
}

#[test]
fn setting_waits_for_the_fitting_reply() {
    let run = manager().apply(false).resume(Reply::Wrapped(Ok(())));
    assert_eq!(describe(&run.request().unwrap()), "cpu /cg/a");
    assert!(run.finish().is_none());
}

#[test]
fn freezing_sets_nothing_else() {
    let request = manager().freeze("default", FreezerState::Frozen);
    assert_eq!(request.opt.resources, "default");
    assert_eq!(request.opt.freezer_state, Some(FreezerState::Frozen));
    assert_eq!(request.opt.oom_score_adj, None);
    assert!(!request.opt.disable_oom_killer);
    assert_eq!(text(&request.path), "/cg/a");
    assert!(Manager::frozen(Ok(())).is_ok());
    assert!(matches!(
        Manager::frozen(Err(failure("stuck"))),
        Err(V2ManagerError::FreezerController(e)) if e.message == "stuck"
    ));
}

#[test]
fn processes_are_looked_for_in_the_cgroup() {
    assert_eq!(text(&manager().get_all_pids()), "/cg/a");
    assert_eq!(Manager::all_pids(Ok(vec![3, 1])).unwrap(), vec![3, 1]);
    assert!(matches!(
        Manager::all_pids(Err(file_failure())),
        Err(V2ManagerError::WrappedIo(WrappedIoError::Open { .. }))
    ));
}

type Gather = GatherStats<u8, u16, u32, u64, i8>;

fn gather() -> Gather {
    manager().stats(Stats { cpu: 0, hugetlb: 0, pids: 0, memory: 0, blkio: 0 })
}

fn answer(controller: ControllerType) -> StatsReply<u8, u16, u32, u64, i8> {
    match controller {
        ControllerType::Cpu => StatsReply::Cpu(Ok(1)),
        ControllerType::HugeTlb => StatsReply::HugeTlb(Ok(2)),
        ControllerType::Pids => StatsReply::Pids(Ok(3)),
        ControllerType::Memory => StatsReply::Memory(Ok(4)),
        ControllerType::Io => StatsReply::Io(Ok(5)),
        ControllerType::CpuSet => panic!("there are no statistics of this controller"),
    }
}

fn gather_until(stop: Option<ControllerType>) -> (Vec<ControllerType>, Gather) {
    let mut run = gather();
    let mut log: Vec<ControllerType> = Vec::new();
    while let Some(request) = run.request() {
        assert_eq!(text(&request.path), "/cg/a");
        if Some(request.controller) == stop {
            return (log, run);
        }
        log.push(request.controller);
        run = run.resume(answer(request.controller));
    }
    (log, run)
}

#[test]
fn statistics_are_complete() {
    let (log, run) = gather_until(None);
    assert_eq!(
        log,
        vec![
            ControllerType::Cpu,
            ControllerType::HugeTlb,
            ControllerType::Io,
            ControllerType::Memory,
            ControllerType::Pids,
        ]
    );
    let stats = run.finish().unwrap().unwrap();
    assert_eq!((stats.cpu, stats.hugetlb, stats.pids, stats.memory, stats.blkio), (1, 2, 3, 4, 5));
}

#[test]
fn failed_statistics_are_reported_by_controller() {
    let fail = |stop: ControllerType, reply: StatsReply<u8, u16, u32, u64, i8>| {
        let (_, run) = gather_until(Some(stop));
        let run = run.resume(reply);
        assert!(run.request().is_none());
        run.finish().unwrap().unwrap_err()
    };
    assert!(matches!(
        fail(ControllerType::Cpu, StatsReply::Cpu(Err(failure("a")))),
        V2ManagerError::CpuStats(e) if e.message == "a"
    ));
    assert!(matches!(
        fail(ControllerType::HugeTlb, StatsReply::HugeTlb(Err(failure("b")))),
        V2ManagerError::HugeTlbStats(_)
    ));
    assert!(matches!(
        fail(ControllerType::Pids, StatsReply::Pids(Err(failure("c")))),
        V2ManagerError::PidsStats(_)
    ));
    assert!(matches!(
        fail(ControllerType::Memory, StatsReply::Memory(Err(failure("d")))),
        V2ManagerError::MemoryStats(_)
    ));
    assert!(matches!(
        fail(ControllerType::Io, StatsReply::Io(Err(failure("e")))),
        V2ManagerError::IoStats(_)
    ));
}

#[test]
fn statistics_wait_for_the_fitting_reply() {
    let run = gather().resume(StatsReply::Io(Ok(9)));
    assert_eq!(run.request().unwrap().controller, ControllerType::Cpu);
    assert!(run.finish().is_none());
}
