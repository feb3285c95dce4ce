//! Creating cgroups, switching controllers on in them, and adding processes.

use std::collections::{BTreeMap, BTreeSet};
use std::path::{Path, PathBuf};

use libcgroups::create::CGROUP_PROCS;
use libcgroups::subtree::CGROUP_SUBTREE_CONTROL;
use libcgroups::{
    ControllerType, CreateCgroup, IoError, JoinSafelyError, Manager, Reply, Request, SubsystemError,
    UnixPath, V2ManagerError, WriteControllers, WrappedIoError,
};
use nix::errno::Errno;

const CGROUP_CONTROLLERS: &str = "cgroup.controllers";

fn text(path: &UnixPath) -> String {
    String::from_utf8(path.bytes.clone()).expect("path is text")
}

/// The name of a file by its components.
fn plain(name: &str) -> String {
    Path::new(name).components().collect::<PathBuf>().to_str().unwrap().to_string()
}

/// A cgroup file system in memory. Writes append; a write for which an error
/// number is set fails with that number.
#[derive(Default)]
struct FakeFs {
    dirs: BTreeSet<String>,
    files: BTreeMap<String, String>,
    refused: BTreeMap<(String, String), i32>,
    no_new_dirs: bool,
    no_metadata: bool,
    log: Vec<String>,
}

impl FakeFs {
    fn set_fixture(&mut self, dir: &str, name: &str, content: &str) {
        self.files.insert(plain(&format!("{dir}/{name}")), content.to_string());
    }

    fn write(&mut self, path: UnixPath, data: String) -> Result<(), WrappedIoError> {
        let name = text(&path);
        self.log.push(format!("write {name} {data}"));
        if let Some(raw) = self.refused.get(&(name.clone(), data.clone())) {
            return Err(WrappedIoError::Write { err: IoError::Os(*raw), path, data });
        }
        match self.files.get_mut(&plain(&name)) {
            Some(content) => {
                content.push_str(&data);
                Ok(())
            }
            None => Err(WrappedIoError::Open { err: IoError::Os(Errno::ENOENT as i32), path }),
        }
    }

    fn answer(&mut self, request: Request) -> Reply {
        match request {
            Request::Exists { path } => {
                let name = text(&path);
                self.log.push(format!("exists {name}"));
                let name = plain(&name);
                Reply::Exists(self.dirs.contains(&name) || self.files.contains_key(&name))
            }
            Request::CreateDir { path } => {
                let name = text(&path);
                self.log.push(format!("mkdir {name}"));
                if self.no_new_dirs {
                    return Reply::Io(Err(IoError::Os(Errno::EROFS as i32)));
                }
                self.set_fixture(&name, CGROUP_SUBTREE_CONTROL, "");
                self.set_fixture(&name, CGROUP_PROCS, "");
                self.dirs.insert(plain(&name));
                Reply::Io(Ok(()))
            }
            Request::Metadata { path } => {
                self.log.push(format!("stat {}", text(&path)));
                if self.no_metadata {
                    Reply::Io(Err(IoError::Other("gone".to_string())))
                } else {
                    Reply::Io(Ok(()))
                }
            }
            Request::WriteCgroupFile { path, data } => Reply::Wrapped(self.write(path, data)),
            Request::AvailableControllers { root } => {
                let name = format!("{}/{CGROUP_CONTROLLERS}", text(&root));
                self.log.push(format!("controllers {}", text(&root)));
                match self.files.get(&name) {
                    Some(content) => Reply::Controllers(Ok(content
                        .split_whitespace()
                        .map(|word| match word {
                            "cpu" => ControllerType::Cpu,
                            "cpuset" => ControllerType::CpuSet,
                            "hugetlb" => ControllerType::HugeTlb,
                            "io" => ControllerType::Io,
                            "memory" => ControllerType::Memory,
                            _ => ControllerType::Pids,
                        })
                        .collect())),
                    None => Reply::Controllers(Err(SubsystemError { message: name })),
                }
            }
            other => panic!("not asked for here: {other:?}"),
        }
    }

    fn create(&mut self, mut run: CreateCgroup) -> Result<(), V2ManagerError> {
        while let Some(request) = run.request() {
            let reply = self.answer(request);
            run = run.resume(reply);
        }
        run.finish().expect("the operation has ended")
    }

    fn enable(&mut self, mut run: WriteControllers) -> Result<(), WrappedIoError> {
        while let Some(request) = run.request() {
            let reply = self.answer(request);
            run = run.resume(reply);
        }
        run.finish().expect("the operation has ended")
    }
}

fn manager(root: &str, cgroup: &str) -> Manager {
    Manager::new(UnixPath::from_text(root), UnixPath::from_text(cgroup)).expect("construct manager")
}

/// The error numbers that are tolerated match, and every other one does not.
#[test]
fn is_subtree_control_per_controller_failure_matches() {
    fn wrap(errno: Errno) -> WrappedIoError {
        WrappedIoError::Write {
            err: IoError::Os(errno as i32),
            path: UnixPath::from_text("/some/cgroup/cgroup.subtree_control"),
            data: "+cpu".into(),
        }
    }

    assert!(Manager::is_subtree_control_per_controller_failure(&wrap(Errno::EROFS)));
    assert!(Manager::is_subtree_control_per_controller_failure(&wrap(Errno::EACCES)));
    assert!(Manager::is_subtree_control_per_controller_failure(&wrap(Errno::ENOENT)));
    assert!(Manager::is_subtree_control_per_controller_failure(&wrap(Errno::EPERM)));
    assert!(Manager::is_subtree_control_per_controller_failure(&wrap(Errno::EOPNOTSUPP)));
    assert!(Manager::is_subtree_control_per_controller_failure(&wrap(Errno::EBUSY)));

    assert!(!Manager::is_subtree_control_per_controller_failure(&wrap(Errno::ENOSPC)));
    assert!(!Manager::is_subtree_control_per_controller_failure(&wrap(Errno::EINVAL)));
    assert!(!Manager::is_subtree_control_per_controller_failure(&wrap(Errno::EIO)));
}

#[test]
fn every_other_error_number_counts() {
    let tolerated = [
        Errno::EROFS,
        Errno::EACCES,
        Errno::ENOENT,
        Errno::EPERM,
        Errno::EOPNOTSUPP,
        Errno::EBUSY,
    ];
    for raw in -5..300 {
        let err = WrappedIoError::Read { err: IoError::Os(raw), path: UnixPath::from_text("/x") };
        assert_eq!(
            Manager::is_subtree_control_per_controller_failure(&err),
            tolerated.iter().any(|e| *e as i32 == raw),
            "{raw}"
        );
    }
}

#[test]
fn failure_without_error_number_counts() {
    let err = WrappedIoError::Open {
        err: IoError::Other("no number".to_string()),
        path: UnixPath::from_text("/x"),
    };
    assert!(!Manager::is_subtree_control_per_controller_failure(&err));
}

#[test]
fn unknown_error_numbers_become_zero() {
    assert_eq!(IoError::Os(41).errno(), Some(0));
    assert_eq!(IoError::Os(58).errno(), Some(0));
    assert_eq!(IoError::Os(134).errno(), Some(0));
    assert_eq!(IoError::Os(0).errno(), Some(0));
    assert_eq!(IoError::Os(-1).errno(), Some(0));
    assert_eq!(IoError::Os(i32::MAX).errno(), Some(0));
    assert_eq!(IoError::Os(30).errno(), Some(30));
    assert_eq!(IoError::Os(95).errno(), Some(95));
    assert_eq!(IoError::Other(String::new()).errno(), None);
    for raw in -200..400 {
        assert_eq!(IoError::Os(raw).errno(), Some(Errno::from_raw(raw) as i32));
        let known = (1..=133).contains(&raw) && raw != 41 && raw != 58;
        assert_eq!(IoError::Os(raw).errno(), Some(if known { raw } else { 0 }));
    }
}

/// The layout:
///     <root>/cgroup.controllers             -> "cpu memory pids"
///     <root>/parent/cgroup.subtree_control  -> "" (pre-existing)
///     <root>/parent/leaf/                   -> pre-existing
///     <root>/parent/leaf/cgroup.procs       -> ""
///
/// There is no <root>/cgroup.subtree_control.
#[test]
fn create_unified_cgroup_skips_root_subtree_control_write() {
    let root = "/tmp/root";
    let mut fs = FakeFs::default();
    fs.dirs.insert(root.to_string());
    fs.set_fixture(root, CGROUP_CONTROLLERS, "cpu memory pids");

    let parent = format!("{root}/parent");
    fs.dirs.insert(parent.clone());
    fs.set_fixture(&parent, CGROUP_SUBTREE_CONTROL, "");

    let leaf = format!("{parent}/leaf");
    fs.dirs.insert(leaf.clone());
    fs.set_fixture(&leaf, CGROUP_PROCS, "");

    let manager = manager(root, "/parent/leaf");

    fs.create(manager.create_unified_cgroup(0))
        .expect("create_unified_cgroup succeeds when root subtree_control is absent");

    let procs = &fs.files[&format!("{leaf}/{CGROUP_PROCS}")];
    assert_eq!(procs.trim(), "0");

    assert_eq!(
        fs.log,
        vec![
            "controllers /tmp/root",
            "exists /tmp/root/parent",
            "write /tmp/root/parent/cgroup.subtree_control +cpu",
            "write /tmp/root/parent/cgroup.subtree_control +memory",
            "write /tmp/root/parent/cgroup.subtree_control +pids",
            "exists /tmp/root/parent/leaf",
            "write /tmp/root/parent/leaf/cgroup.procs 0",
        ]
    );
}

/// Writing controllers ends well in both modes when the file can be written.
#[test]
fn write_controllers_happy_path_both_modes() {
    let dir = "/tmp/dir";
    let mut fs = FakeFs::default();
    fs.set_fixture(dir, CGROUP_SUBTREE_CONTROL, "");

    let controllers = vec!["+cpu".to_string(), "+memory".to_string()];

    fs.enable(Manager::write_controllers(&UnixPath::from_text(dir), &controllers, true))
        .expect("strict write_controllers succeeds on writable subtree_control");
    assert_eq!(fs.files["/tmp/dir/cgroup.subtree_control"], "+cpu+memory");

    fs.enable(Manager::write_controllers(&UnixPath::from_text(dir), &controllers, false))
        .expect("non-strict write_controllers succeeds on writable subtree_control");
    assert_eq!(fs.files["/tmp/dir/cgroup.subtree_control"], "+cpu+memory+cpu+memory");
}

#[test]
fn lenient_mode_passes_over_tolerated_failures() {
    let file = "/d/cgroup.subtree_control".to_string();
    let mut fs = FakeFs::default();
    fs.set_fixture("/d", CGROUP_SUBTREE_CONTROL, "");
    fs.refused.insert((file.clone(), "+hugetlb".to_string()), Errno::ENOENT as i32);
    let controllers = vec!["+hugetlb".to_string(), "+io".to_string()];
    let dir = UnixPath::from_text("/d");

    assert!(fs.enable(Manager::write_controllers(&dir, &controllers, false)).is_ok());
    assert_eq!(fs.files[&file], "+io");

    match fs.enable(Manager::write_controllers(&dir, &controllers, true)) {
        Err(WrappedIoError::Write { err: IoError::Os(raw), path, data }) => {
            assert_eq!(raw, 2);
            assert_eq!(text(&path), file);
            assert_eq!(data, "+hugetlb");
        }
        other => panic!("{other:?}"),
    }
    assert_eq!(fs.files[&file], "+io");
}

#[test]
fn lenient_mode_reports_other_failures() {
    let file = "/d/cgroup.subtree_control".to_string();
    let mut fs = FakeFs::default();
    fs.set_fixture("/d", CGROUP_SUBTREE_CONTROL, "");
    fs.refused.insert((file.clone(), "+cpu".to_string()), Errno::EINVAL as i32);
    let controllers = vec!["+pids".to_string(), "+cpu".to_string(), "+io".to_string()];

    let end = fs.enable(Manager::write_controllers(&UnixPath::from_text("/d"), &controllers, false));
    assert!(matches!(end, Err(WrappedIoError::Write { err: IoError::Os(22), .. })));
    assert_eq!(fs.files[&file], "+pids");
}

#[test]
fn no_controllers_need_no_write() {
    let run = Manager::write_controllers(&UnixPath::from_text("/d"), &[], true);
    assert!(run.request().is_none());
    assert!(matches!(run.finish(), Some(Ok(()))));
}

#[test]
fn directories_are_made_from_the_top_down() {
    let mut fs = FakeFs::default();
    fs.dirs.insert("/cg".to_string());
    fs.set_fixture("/cg", CGROUP_CONTROLLERS, "io");

    fs.create(manager("/cg", "a//b/./c/").create_unified_cgroup(-7)).expect("create");
    assert_eq!(
        fs.log,
        vec![
            "controllers /cg",
            "exists /cg/a",
            "mkdir /cg/a",
            "stat /cg/a",
            "write /cg/a/cgroup.subtree_control +io",
            "exists /cg/a/b",
            "mkdir /cg/a/b",
            "stat /cg/a/b",
            "write /cg/a/b/cgroup.subtree_control +io",
            "exists /cg/a/b/c",
            "mkdir /cg/a/b/c",
            "stat /cg/a/b/c",
            "write /cg/a//b/./c/cgroup.procs -7",
        ]
    );
}

#[test]
fn success_means_all_was_written_and_the_missing_were_made() {
    let mut fs = FakeFs::default();
    fs.dirs.insert("/cg/a".to_string());
    fs.set_fixture("/cg", CGROUP_CONTROLLERS, "memory cpu");
    fs.set_fixture("/cg/a", CGROUP_SUBTREE_CONTROL, "");
    fs.refused.insert(
        ("/cg/a/cgroup.subtree_control".to_string(), "+memory".to_string()),
        Errno::EOPNOTSUPP as i32,
    );

    fs.create(manager("/cg", "/a/b/c").create_unified_cgroup(12)).expect("create");
    let writes: Vec<&String> = fs.log.iter().filter(|line| line.starts_with("write")).collect();
    assert_eq!(
        writes,
        vec![
            "write /cg/a/cgroup.subtree_control +memory",
            "write /cg/a/cgroup.subtree_control +cpu",
            "write /cg/a/b/cgroup.subtree_control +memory",
            "write /cg/a/b/cgroup.subtree_control +cpu",
            "write /cg/a/b/c/cgroup.procs 12",
        ]
    );
    let made: Vec<&String> = fs.log.iter().filter(|line| line.starts_with("mkdir")).collect();
    assert_eq!(made, vec!["mkdir /cg/a/b", "mkdir /cg/a/b/c"]);
    let looked: Vec<&String> = fs.log.iter().filter(|line| line.starts_with("exists")).collect();
    assert_eq!(looked, vec!["exists /cg/a", "exists /cg/a/b", "exists /cg/a/b/c"]);
}

#[test]
fn made_directories_are_strict_and_found_ones_are_not() {
    let root = "/cg";
    let cgroup = "/found/made/leaf";
    let mut fs = FakeFs::default();
    fs.dirs.insert("/cg/found".to_string());
    fs.set_fixture(root, CGROUP_CONTROLLERS, "cpu");
    fs.set_fixture("/cg/found", CGROUP_SUBTREE_CONTROL, "");
    let control = |dir: &str| (format!("/cg/{dir}/cgroup.subtree_control"), "+cpu".to_string());

    fs.refused.insert(control("found"), Errno::EBUSY as i32);
    fs.create(manager(root, cgroup).create_unified_cgroup(1)).expect("busy ancestor is tolerated");

    let mut fs = FakeFs::default();
    fs.set_fixture(root, CGROUP_CONTROLLERS, "cpu");
    fs.refused.insert(control("found/made"), Errno::EBUSY as i32);
    let end = fs.create(manager(root, cgroup).create_unified_cgroup(1));
    assert!(matches!(
        end,
        Err(V2ManagerError::WrappedIo(WrappedIoError::Write { err: IoError::Os(16), .. }))
    ));
    assert_eq!(fs.log.last().unwrap(), "write /cg/found/made/cgroup.subtree_control +cpu");
}

#[test]
fn unreadable_controllers_are_reported() {
    let mut fs = FakeFs::default();
    let end = fs.create(manager("/cg", "a").create_unified_cgroup(1));
    match end {
        Err(V2ManagerError::Util(e)) => assert_eq!(e.message, "/cg/cgroup.controllers"),
        other => panic!("{other:?}"),
    }
    assert_eq!(fs.log, vec!["controllers /cg"]);
}

#[test]
fn directory_that_cannot_be_made_is_reported() {
    let mut fs = FakeFs { no_new_dirs: true, ..FakeFs::default() };
    fs.set_fixture("/cg", CGROUP_CONTROLLERS, "cpu");
    match fs.create(manager("/cg", "a/b").create_unified_cgroup(1)) {
        Err(V2ManagerError::WrappedIo(WrappedIoError::CreateDir { err, path })) => {
            assert_eq!(err.raw_os_error(), Some(30));
            assert_eq!(text(&path), "/cg/a");
        }
        other => panic!("{other:?}"),
    }
}

#[test]
fn directory_that_cannot_be_looked_at_is_reported() {
    let mut fs = FakeFs { no_metadata: true, ..FakeFs::default() };
    fs.set_fixture("/cg", CGROUP_CONTROLLERS, "cpu");
    match fs.create(manager("/cg", "a/b").create_unified_cgroup(1)) {
        Err(V2ManagerError::WrappedIo(WrappedIoError::Other { err, path })) => {
            assert_eq!(err.raw_os_error(), None);
            assert_eq!(text(&path), "/cg/a");
        }
        other => panic!("{other:?}"),
    }
}

#[test]
fn failed_attachment_is_reported() {
    let mut fs = FakeFs::default();
    fs.set_fixture("/cg", CGROUP_CONTROLLERS, "");
    fs.dirs.insert("/cg/a".to_string());
    match fs.create(manager("/cg", "a").create_unified_cgroup(1)) {
        Err(V2ManagerError::WrappedIo(WrappedIoError::Open { err, path })) => {
            assert_eq!(err.raw_os_error(), Some(2));
            assert_eq!(text(&path), "/cg/a/cgroup.procs");
        }
        other => panic!("{other:?}"),
    }
}

#[test]
fn root_itself_needs_no_directories() {
    for cgroup in ["/", ""] {
        let mut fs = FakeFs::default();
        fs.set_fixture("/cg", CGROUP_CONTROLLERS, "cpu");
        fs.set_fixture("/cg", CGROUP_PROCS, "");
        fs.create(manager("/cg", cgroup).create_unified_cgroup(12)).expect("attach to the root");
        assert_eq!(fs.log, vec!["controllers /cg", "write /cg/cgroup.procs 12"]);
    }
}

#[test]
fn leading_dot_leaves_the_root_alone() {
    let mut fs = FakeFs::default();
    fs.dirs.insert("/cg".to_string());
    fs.set_fixture("/cg", CGROUP_CONTROLLERS, "cpu");
    fs.set_fixture("/cg", CGROUP_SUBTREE_CONTROL, "");
    fs.create(manager("/cg", "./a/b").create_unified_cgroup(3)).expect("create");
    assert_eq!(
        fs.log,
        vec![
            "controllers /cg",
            "exists /cg/.",
            "exists /cg/./a",
            "mkdir /cg/./a",
            "stat /cg/./a",
            "write /cg/./a/cgroup.subtree_control +cpu",
            "exists /cg/./a/b",
            "mkdir /cg/./a/b",
            "stat /cg/./a/b",
            "write /cg/./a/b/cgroup.procs 3",
        ]
    );
    assert_eq!(fs.files["/cg/cgroup.subtree_control"], "");
}

#[test]
fn errors_convert_to_the_error_of_the_manager() {
    let path = UnixPath::from_text("/cg");
    let e = V2ManagerError::from(WrappedIoError::Read { err: IoError::Os(5), path });
    assert!(matches!(
        e,
        V2ManagerError::WrappedIo(WrappedIoError::Read { err: IoError::Os(5), .. })
    ));
    let path = UnixPath::from_text("a");
    match V2ManagerError::from(JoinSafelyError::StripPrefix { path }) {
        V2ManagerError::JoinSafely(JoinSafelyError::StripPrefix { path }) => {
            assert_eq!(text(&path), "a")
        }
        other => panic!("{other:?}"),
    }
}

#[test]
fn add_task_joins_an_existing_cgroup() {
    let mut fs = FakeFs::default();
    fs.dirs.insert("/cg/a/b".to_string());
    fs.set_fixture("/cg/a/b", CGROUP_PROCS, "");
    fs.create(manager("/cg", "/a/b").add_task(4711)).expect("add task");
    assert_eq!(fs.log, vec!["exists /cg/a/b", "write /cg/a/b/cgroup.procs 4711"]);
}

#[test]
fn add_task_creates_a_missing_cgroup() {
    let mut fs = FakeFs::default();
    fs.dirs.insert("/cg/a".to_string());
    fs.set_fixture("/cg", CGROUP_CONTROLLERS, "");
    fs.create(manager("/cg", "/a/b").add_task(i32::MAX)).expect("add task");
    assert_eq!(
        fs.log,
        vec![
            "exists /cg/a/b",
            "controllers /cg",
            "exists /cg/a",
            "exists /cg/a/b",
            "mkdir /cg/a/b",
            "stat /cg/a/b",
            "write /cg/a/b/cgroup.procs 2147483647",
        ]
    );
}

#[test]
fn reply_of_another_kind_changes_nothing() {
    let run = manager("/cg", "a").add_task(1);
    let run = run.resume(Reply::Signalled).resume(Reply::Io(Ok(())));
    match run.request() {
        Some(Request::Exists { path }) => assert_eq!(text(&path), "/cg/a"),
        other => panic!("{other:?}"),
    }
    assert!(run.finish().is_none());
}

#[test]
fn end_is_kept() {
    let run = manager("/cg", "a").add_task(1);
    let run = run.resume(Reply::Exists(true)).resume(Reply::Wrapped(Ok(())));
    assert!(run.request().is_none());
    let run = run.resume(Reply::Exists(false));
    assert!(matches!(run.finish(), Some(Ok(()))));
}
