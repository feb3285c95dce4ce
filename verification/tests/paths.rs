//! Joining paths and taking them apart, held against the standard library.

use std::path::{Component, Path, PathBuf};

use libcgroups::manager::join_safely;
use libcgroups::{AnyCgroupManager, Manager, UnixPath};

const SAMPLES: [&str; 32] = [
    "", "/", "//", ".", "./", "..", "../", "/.", "/..", "/./", "a", "a/", "/a", "/a/", "a/b",
    "/a/b", "a//b", "//a//b//", "./a", "./a/./b/.", "/./a/./b/./.", "a/../b", "/../a", "/a/..",
    "a/.", "a/..", "...", ".a", "a.", "/.a/..b/c..", "././a", "/sys/fs/cgroup",
];

fn path(text: &str) -> UnixPath {
    UnixPath::from_text(text)
}

fn text(path: &UnixPath) -> String {
    String::from_utf8(path.bytes.clone()).expect("path is text")
}

#[test]
fn join_agrees_with_the_standard_library() {
    for base in SAMPLES {
        for tail in SAMPLES {
            assert_eq!(
                text(&path(base).join(tail.as_bytes())),
                Path::new(base).join(tail).to_str().unwrap(),
                "{base:?} {tail:?}"
            );
        }
    }
}

#[test]
fn names_agree_with_the_standard_library() {
    for sample in SAMPLES {
        let expected: Vec<Vec<u8>> = Path::new(sample)
            .components()
            .filter(|c| c.ne(&Component::RootDir))
            .map(|c| c.as_os_str().to_str().unwrap().as_bytes().to_vec())
            .collect();
        assert_eq!(path(sample).names(), expected, "{sample:?}");
    }
}

#[test]
fn strip_root_agrees_with_the_standard_library() {
    for sample in SAMPLES {
        let expected = Path::new(sample).strip_prefix("/").ok();
        assert_eq!(
            path(sample).strip_root().map(|p| text(&p)),
            expected.map(|p| p.to_str().unwrap().to_string()),
            "{sample:?}"
        );
    }
}

#[test]
fn is_absolute_agrees_with_the_standard_library() {
    for sample in SAMPLES {
        assert_eq!(path(sample).is_absolute(), Path::new(sample).is_absolute(), "{sample:?}");
    }
}

#[test]
fn absolute_cgroup_path_starts_at_the_root_path() {
    let joined = join_safely(&path("/sys/fs/cgroup"), &path("/user.slice//x/")).unwrap();
    assert_eq!(text(&joined), "/sys/fs/cgroup/user.slice//x");
    let joined = join_safely(&path("/sys/fs/cgroup/"), &path("a/")).unwrap();
    assert_eq!(text(&joined), "/sys/fs/cgroup/a/");
    let joined = join_safely(&path("/sys/fs/cgroup"), &path("/")).unwrap();
    assert_eq!(text(&joined), "/sys/fs/cgroup/");
}

#[test]
fn walking_the_names_reaches_the_full_path() {
    for root in SAMPLES {
        for cgroup in SAMPLES {
            let mut here = path(root);
            for name in path(cgroup).names() {
                here = here.join(&name);
            }
            let full = join_safely(&path(root), &path(cgroup)).unwrap();
            assert_eq!(
                PathBuf::from(text(&here)),
                PathBuf::from(text(&full)),
                "{root:?} {cgroup:?}"
            );
            assert!(text(&full).starts_with(root));
        }
    }
}

#[test]
fn paths_need_not_be_text() {
    let odd = UnixPath::from_bytes(vec![0xff, 0x2f, 0xfe]);
    assert_eq!(odd.names(), vec![vec![0xff], vec![0xfe]]);
    assert_eq!(odd.join(&[0x80]).bytes, vec![0xff, 0x2f, 0xfe, 0x2f, 0x80]);
    assert_eq!(odd.copy(), odd);
}

#[test]
fn new_keeps_the_paths() {
    let manager = Manager::new(path("/sys/fs/cgroup"), path("/parent/leaf")).unwrap();
    assert_eq!(text(manager.root_path()), "/sys/fs/cgroup");
    assert_eq!(text(manager.cgroup_path()), "/parent/leaf");
    assert_eq!(text(manager.full_path()), "/sys/fs/cgroup/parent/leaf");
}

#[test]
fn any_holds_the_manager() {
    let manager = Manager::new(path("/r"), path("c")).unwrap();
    let AnyCgroupManager::V2(manager) = manager.any();
    assert_eq!(text(manager.full_path()), "/r/c");
}
