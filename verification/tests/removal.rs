//! Removing cgroups, and the lists of processes that this reads.

use libcgroups::decimal::{parse_i32, to_decimal, ParseIntError};
use libcgroups::procs::Procs;
use libcgroups::{
    IoError, Manager, RemoveCgroup, Reply, Request, UnixPath, V2ManagerError, WrappedIoError,
    CGROUP_KILL,
};

fn text(path: &UnixPath) -> String {
    String::from_utf8(path.bytes.clone()).expect("path is text")
}

fn removal() -> RemoveCgroup {
    Manager::new(UnixPath::from_text("/cg"), UnixPath::from_text("/a")).unwrap().remove()
}

fn describe(request: Option<Request>) -> String {
    match request {
        None => "end".to_string(),
        Some(Request::Exists { path }) => format!("exists {}", text(&path)),
        Some(Request::WriteFile { path, data }) => format!("write {} {data}", text(&path)),
        Some(Request::ReadToString { path }) => format!("read {}", text(&path)),
        Some(Request::Kill { pid }) => format!("kill {pid}"),
        Some(Request::DeleteWithRetry { path, retries, limit_millis }) => {
            format!("delete {} {retries} {limit_millis}", text(&path))
        }
        Some(other) => panic!("not asked for here: {other:?}"),
    }
}

/// Feeds the replies in and lists what is asked for before each and at the end.
fn play(replies: Vec<Reply>) -> (Vec<String>, Option<Result<(), V2ManagerError>>) {
    let mut run = removal();
    let mut log = vec![describe(run.request())];
    for reply in replies {
        run = run.resume(reply);
        log.push(describe(run.request()));
    }
    (log, run.finish())
}

#[test]
fn missing_cgroup_is_no_error() {
    let (log, end) = play(vec![Reply::Exists(false)]);
    assert_eq!(log, vec!["exists /cg/a", "end"]);
    assert!(matches!(end, Some(Ok(()))));
}

#[test]
fn kernel_kills_all_where_it_can() {
    let (log, end) = play(vec![
        Reply::Exists(true),
        Reply::Exists(true),
        Reply::Io(Ok(())),
        Reply::Wrapped(Ok(())),
    ]);
    assert_eq!(CGROUP_KILL, "cgroup.kill");
    assert_eq!(
        log,
        vec![
            "exists /cg/a",
            "exists /cg/a/cgroup.kill",
            "write /cg/a/cgroup.kill 1",
            "delete /cg/a 4 100",
            "end",
        ]
    );
    assert!(matches!(end, Some(Ok(()))));
}

#[test]
fn processes_are_killed_one_by_one() {
    let (log, end) = play(vec![
        Reply::Exists(true),
        Reply::Exists(false),
        Reply::Text(Ok("12\n+7\r\n-3\n".to_string())),
        Reply::Signalled,
        Reply::Signalled,
        Reply::Signalled,
        Reply::Wrapped(Ok(())),
    ]);
    assert_eq!(
        log,
        vec![
            "exists /cg/a",
            "exists /cg/a/cgroup.kill",
            "read /cg/a/cgroup.procs",
            "kill 12",
            "kill 7",
            "kill -3",
            "delete /cg/a 4 100",
            "end",
        ]
    );
    assert!(matches!(end, Some(Ok(()))));
}

#[test]
fn empty_list_needs_no_signal() {
    let (log, _) =
        play(vec![Reply::Exists(true), Reply::Exists(false), Reply::Text(Ok(String::new()))]);
    assert_eq!(log.last().unwrap(), "delete /cg/a 4 100");
}

#[test]
fn faulty_line_ends_it_after_the_signals_before() {
    let (log, end) = play(vec![
        Reply::Exists(true),
        Reply::Exists(false),
        Reply::Text(Ok("5\nx\n6\n".to_string())),
        Reply::Signalled,
    ]);
    assert_eq!(log[3..], ["kill 5".to_string(), "end".to_string()]);
    match end {
        Some(Err(V2ManagerError::WrappedIo(WrappedIoError::Other { err, path }))) => {
            assert!(matches!(err, IoError::InvalidData(ParseIntError::InvalidDigit)));
            assert_eq!(text(&path), "/cg/a/cgroup.procs");
        }
        other => panic!("{other:?}"),
    }
}

#[test]
fn unreadable_list_is_reported() {
    let (_, end) =
        play(vec![Reply::Exists(true), Reply::Exists(false), Reply::Text(Err(IoError::Os(5)))]);
    match end {
        Some(Err(V2ManagerError::WrappedIo(WrappedIoError::Read { err, path }))) => {
            assert_eq!(err.raw_os_error(), Some(5));
            assert_eq!(text(&path), "/cg/a/cgroup.procs");
        }
        other => panic!("{other:?}"),
    }
}

#[test]
fn failed_kill_is_reported() {
    let (_, end) =
        play(vec![Reply::Exists(true), Reply::Exists(true), Reply::Io(Err(IoError::Os(13)))]);
    match end {
        Some(Err(V2ManagerError::WrappedIo(WrappedIoError::Write { err, path, data }))) => {
            assert_eq!(err.raw_os_error(), Some(13));
            assert_eq!(text(&path), "/cg/a/cgroup.kill");
            assert_eq!(data, "1");
        }
        other => panic!("{other:?}"),
    }
}

#[test]
fn failed_deletion_is_reported() {
    let failure = WrappedIoError::Other {
        err: IoError::Other("could not delete".to_string()),
        path: UnixPath::from_text("/cg/a"),
    };
    let (_, end) = play(vec![
        Reply::Exists(true),
        Reply::Exists(true),
        Reply::Io(Ok(())),
        Reply::Wrapped(Err(failure)),
    ]);
    assert!(matches!(end, Some(Err(V2ManagerError::WrappedIo(WrappedIoError::Other { .. })))));
}

#[test]
fn unfitting_reply_changes_nothing() {
    let (log, end) = play(vec![Reply::Signalled, Reply::Io(Ok(()))]);
    assert_eq!(log, vec!["exists /cg/a", "exists /cg/a", "exists /cg/a"]);
    assert!(end.is_none());
}

#[test]
fn numbers_agree_with_the_standard_library() {
    let samples = [
        "", "+", "-", "0", "-0", "+0", "00012", "7", "-7", "+7", "2147483647", "2147483648",
        "-2147483648", "-2147483649", "99999999999", "-99999999999", "1x", "x1", " 1", "1 ", "--1",
        "+-1", "1+", "9999999999x", "99999999999x", "-99999999999x", "12\u{e9}", "4294967296",
    ];
    for sample in samples {
        let expected = sample.parse::<i32>();
        match (parse_i32(sample.as_bytes()), expected) {
            (Ok(v), Ok(w)) => assert_eq!(v, w, "{sample:?}"),
            (Err(e), Err(f)) => {
                let kind = match e {
                    ParseIntError::Empty => "Empty",
                    ParseIntError::InvalidDigit => "InvalidDigit",
                    ParseIntError::PosOverflow => "PosOverflow",
                    ParseIntError::NegOverflow => "NegOverflow",
                };
                assert_eq!(kind, format!("{:?}", f.kind()), "{sample:?}");
            }
            (mine, theirs) => panic!("{sample:?}: {mine:?} {theirs:?}"),
        }
    }
}

#[test]
fn decimal_text_agrees_with_the_standard_library() {
    for i in [0, 1, 9, 10, 11, 99, 100, 4711, -1, -10, i32::MAX, i32::MIN, i32::MIN + 1] {
        assert_eq!(to_decimal(i), i.to_string());
        assert_eq!(parse_i32(to_decimal(i).as_bytes()), Ok(i));
    }
}

#[test]
fn lines_agree_with_the_standard_library() {
    for sample in ["", "1", "1\n", "1\n2", "1\r\n2\r\n", "1\r", "1\n\n2", "\n", "1\r\r\n", "3\n4\n5\n"] {
        let mut expected: Vec<i32> = Vec::new();
        let mut faulty = false;
        for line in sample.lines() {
            match line.parse() {
                Ok(pid) => expected.push(pid),
                Err(_) => {
                    faulty = true;
                    break;
                }
            }
        }
        let found = Procs::read(sample.as_bytes());
        assert_eq!(found.pids, expected, "{sample:?}");
        assert_eq!(found.fault.is_some(), faulty, "{sample:?}");
    }
}

#[test]
fn attached_process_is_found() {
    for pid in [0, 1, 4711, -5, i32::MAX] {
        let found = Procs::read(format!("{}\n", to_decimal(pid)).as_bytes());
        assert_eq!(found.pids, vec![pid]);
        assert!(found.fault.is_none());
    }
}
