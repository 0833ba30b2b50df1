use cargo_test::lookup::{DirSet, KindMap};
use cargo_test::model::{CompileKind, CompileTarget};
use std::path::PathBuf;

fn platform(short_name: &str, rustc_target: &str) -> CompileKind {
    CompileKind::Target(CompileTarget {
        short_name: short_name.to_string(),
        rustc_target: rustc_target.to_string(),
    })
}

fn set(dirs: &[&str]) -> Vec<PathBuf> {
    let mut set = DirSet::new();
    for dir in dirs {
        set.insert(PathBuf::from(dir));
    }
    set.dirs().to_vec()
}

fn paths(dirs: &[&str]) -> Vec<PathBuf> {
    dirs.iter().map(PathBuf::from).collect()
}

#[test]
fn kinds_are_the_same_if_both_names_are() {
    let arm = platform("arm", "arm.json");
    assert!(arm.same_as(&platform("arm", "arm.json")));
    assert!(!arm.same_as(&platform("arm", "other")));
    assert!(!arm.same_as(&platform("other", "arm.json")));
    assert!(!arm.same_as(&CompileKind::Host));
    assert!(CompileKind::Host.same_as(&CompileKind::Host));
}

#[test]
fn values_are_found_by_kind() {
    let mut map = KindMap::new();
    assert!(map.get(&CompileKind::Host).is_none());
    map.insert(CompileKind::Host, 1);
    map.insert(platform("arm", "a"), 2);
    map.insert(platform("arm", "b"), 3);
    assert_eq!(map.get(&CompileKind::Host), Some(&1));
    assert_eq!(map.get(&platform("arm", "a")), Some(&2));
    assert_eq!(map.get(&platform("arm", "b")), Some(&3));
    assert_eq!(map.get(&platform("arm", "c")), None);
}

#[test]
fn a_kind_has_one_value() {
    let mut map = KindMap::new();
    map.insert(CompileKind::Host, 1);
    map.insert(platform("arm", "a"), 2);
    map.insert(CompileKind::Host, 3);
    assert_eq!(map.get(&CompileKind::Host), Some(&3));
    assert_eq!(map.get(&platform("arm", "a")), Some(&2));
    assert_eq!(map.entries().len(), 2);
}

#[test]
fn directories_are_in_ascending_order() {
    assert_eq!(set(&[]), paths(&[]));
    assert_eq!(set(&["/b", "/c", "/a"]), paths(&["/a", "/b", "/c"]));
    assert_eq!(set(&["/c", "/b", "/a"]), paths(&["/a", "/b", "/c"]));
    // Paths are compared part by part, not byte by byte.
    assert_eq!(set(&["/a-b", "/a/b"]), paths(&["/a/b", "/a-b"]));
}

#[test]
fn no_directory_occurs_twice() {
    assert_eq!(set(&["/b", "/a", "/b", "/a"]), paths(&["/a", "/b"]));
    assert_eq!(set(&["/a/b", "/a//b"]), paths(&["/a/b"]));
}
