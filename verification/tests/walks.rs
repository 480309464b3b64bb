use std::collections::{BTreeMap, BTreeSet};
use subtree_fetch::error::{Reference, WalkError};
use subtree_fetch::lookup::{Cont, LookupData, Repository, Start};
use subtree_fetch::object::{Entry, ObjectKind, RemoteObjectId};
use subtree_fetch::plan::{Branch, Step};

fn text(s: &str) -> String {
    s.to_string()
}

fn found(kind: ObjectKind) -> LookupData {
    LookupData { repository: Some(Repository { object: Some(kind) }) }
}

fn file(content: &str) -> ObjectKind {
    ObjectKind::File { content: Some(text(content)) }
}

fn dir(lines: &[(&str, &str)]) -> ObjectKind {
    ObjectKind::Directory {
        entries: lines
            .iter()
            .map(|(name, id)| Entry { name: text(name), id: RemoteObjectId(text(id)) })
            .collect(),
    }
}

/// What a walk left behind: files by path, and the directories made.
#[derive(Debug, Default, PartialEq, Eq, Clone)]
struct Disk {
    files: BTreeMap<String, String>,
    directories: BTreeSet<String>,
}

/// Takes one step on `disk` and puts the lookups it sets off in flight.
fn take(step: Step, disk: &mut Disk, in_flight: &mut Vec<Branch>) {
    match step {
        Step::WriteFile { path, content } => {
            disk.files.insert(path, content);
        }
        Step::EnterDirectory { path, children, concurrency } => {
            assert_eq!(concurrency, children.len() + 1);
            disk.directories.insert(path);
            in_flight.extend(children);
        }
    }
}

/// Walks `remote` from `root` to `local`. `choose` picks, among the lookups
/// in flight, the one that completes next.
fn walk(
    local: &str,
    root: ObjectKind,
    remote: &BTreeMap<&str, ObjectKind>,
    choose: &dyn Fn(usize, usize) -> usize,
    disk: &mut Disk,
) -> Result<(), WalkError> {
    let mut in_flight: Vec<Branch> = Vec::new();
    take(Start::step(text(local), found(root))?, disk, &mut in_flight);
    let mut turn = 0;
    while !in_flight.is_empty() {
        let branch = in_flight.remove(choose(turn, in_flight.len()));
        turn += 1;
        let data = match remote.get(branch.id.0.as_str()) {
            Some(kind) => found(kind.clone()),
            None => LookupData { repository: Some(Repository { object: None }) },
        };
        take(Cont::step(branch.path, data)?, disk, &mut in_flight);
    }
    Ok(())
}

fn oldest(_turn: usize, _len: usize) -> usize {
    0
}

fn newest(_turn: usize, len: usize) -> usize {
    len - 1
}

fn shuffled(turn: usize, len: usize) -> usize {
    (turn * 7 + 3) % len
}

fn small_tree() -> (ObjectKind, BTreeMap<&'static str, ObjectKind>) {
    let mut remote = BTreeMap::new();
    remote.insert("id1", file("x"));
    remote.insert("id2", dir(&[("b.txt", "id3")]));
    remote.insert("id3", file("y"));
    (dir(&[("a.txt", "id1"), ("sub", "id2")]), remote)
}

fn wide_tree() -> (ObjectKind, BTreeMap<&'static str, ObjectKind>) {
    let mut remote = BTreeMap::new();
    remote.insert("r", file("readme"));
    remote.insert("s", dir(&[("main.rs", "m"), ("util", "u"), ("empty", "e")]));
    remote.insert("m", file("fn main() {}\n"));
    remote.insert("u", dir(&[("a.rs", "ua"), ("b.rs", "ub")]));
    remote.insert("ua", file("a"));
    remote.insert("ub", file(""));
    remote.insert("e", dir(&[]));
    remote.insert("d", dir(&[("deep", "dd")]));
    remote.insert("dd", dir(&[("deeper", "ddd")]));
    remote.insert("ddd", file("bottom"));
    (dir(&[("README", "r"), ("src", "s"), ("d", "d")]), remote)
}

#[test]
fn root_file_lands_at_the_destination_with_its_exact_content() {
    let mut disk = Disk::default();
    let result = walk("hello.txt", file("hello\n"), &BTreeMap::new(), &oldest, &mut disk);
    assert_eq!(result, Ok(()));
    assert_eq!(disk.files.get("hello.txt"), Some(&text("hello\n")));
    assert_eq!(disk.files.len(), 1);
    assert!(disk.directories.is_empty());
}

#[test]
fn nested_directory_is_materialized() {
    let (root, remote) = small_tree();
    let mut disk = Disk::default();
    assert_eq!(walk(".", root, &remote, &oldest, &mut disk), Ok(()));
    let mut files = BTreeMap::new();
    files.insert(text("./a.txt"), text("x"));
    files.insert(text("./sub/b.txt"), text("y"));
    assert_eq!(disk.files, files);
    let directories: BTreeSet<String> = [text("."), text("./sub")].into_iter().collect();
    assert_eq!(disk.directories, directories);
}

#[test]
fn root_commit_fails_without_a_write() {
    let mut disk = Disk::default();
    let result = walk("out", ObjectKind::CommitReference, &BTreeMap::new(), &oldest, &mut disk);
    assert_eq!(result, Err(WalkError::UnsupportedRootKind { reference: Reference::Commit }));
    assert_eq!(disk, Disk::default());
}

#[test]
fn nested_tag_fails_and_leaves_written_siblings() {
    let mut remote = BTreeMap::new();
    remote.insert("id1", file("x"));
    remote.insert("id2", ObjectKind::TagReference);
    let root = dir(&[("a.txt", "id1"), ("t", "id2")]);
    let mut disk = Disk::default();
    let result = walk("out", root, &remote, &oldest, &mut disk);
    assert_eq!(result, Err(WalkError::UnsupportedNestedKind { reference: Reference::Tag }));
    assert_eq!(disk.files.get("out/a.txt"), Some(&text("x")));
    assert!(disk.directories.contains("out"));
}

#[test]
fn paths_follow_the_names_at_every_depth() {
    let (root, remote) = wide_tree();
    let mut disk = Disk::default();
    assert_eq!(walk("target", root, &remote, &oldest, &mut disk), Ok(()));
    assert_eq!(disk.files.get("target/d/deep/deeper"), Some(&text("bottom")));
    assert_eq!(disk.files.get("target/src/util/a.rs"), Some(&text("a")));
    assert_eq!(disk.files.get("target/src/util/b.rs"), Some(&text("")));
    assert_eq!(disk.files.get("target/src/main.rs"), Some(&text("fn main() {}\n")));
    assert_eq!(disk.files.get("target/README"), Some(&text("readme")));
    assert_eq!(disk.files.len(), 5);
    let directories: BTreeSet<String> = [
        "target",
        "target/src",
        "target/src/util",
        "target/src/empty",
        "target/d",
        "target/d/deep",
    ]
    .into_iter()
    .map(text)
    .collect();
    assert_eq!(disk.directories, directories);
}

#[test]
fn walking_twice_changes_nothing() {
    let (root, remote) = wide_tree();
    let mut disk = Disk::default();
    assert_eq!(walk("out", root.clone(), &remote, &oldest, &mut disk), Ok(()));
    let after_first = disk.clone();
    assert_eq!(walk("out", root, &remote, &shuffled, &mut disk), Ok(()));
    assert_eq!(disk, after_first);
}

#[test]
fn walking_again_replaces_stale_content() {
    let (root, remote) = small_tree();
    let mut disk = Disk::default();
    disk.files.insert(text("./a.txt"), text("stale and longer than before"));
    disk.files.insert(text("./unrelated"), text("kept"));
    assert_eq!(walk(".", root, &remote, &newest, &mut disk), Ok(()));
    assert_eq!(disk.files.get("./a.txt"), Some(&text("x")));
    assert_eq!(disk.files.get("./sub/b.txt"), Some(&text("y")));
    assert_eq!(disk.files.get("./unrelated"), Some(&text("kept")));
}

#[test]
fn order_of_completion_does_not_change_what_is_written() {
    let (root, remote) = wide_tree();
    let mut first = Disk::default();
    let mut second = Disk::default();
    let mut third = Disk::default();
    assert_eq!(walk("out", root.clone(), &remote, &oldest, &mut first), Ok(()));
    assert_eq!(walk("out", root.clone(), &remote, &newest, &mut second), Ok(()));
    assert_eq!(walk("out", root, &remote, &shuffled, &mut third), Ok(()));
    assert_eq!(first, second);
    assert_eq!(first, third);
    assert_eq!(first.files.len(), 5);
}

#[test]
fn one_binary_file_fails_the_directory() {
    for count in [0usize, 1, 5] {
        for order in [&oldest as &dyn Fn(usize, usize) -> usize, &newest, &shuffled] {
            let ids: Vec<String> = (0..count).map(|n| format!("t{}", n)).collect();
            let names: Vec<String> = (0..count).map(|n| format!("text{}.txt", n)).collect();
            let mut remote = BTreeMap::new();
            let mut lines: Vec<(&str, &str)> = Vec::new();
            for n in 0..count {
                remote.insert(ids[n].as_str(), file("text"));
                lines.push((names[n].as_str(), ids[n].as_str()));
            }
            remote.insert("bin", ObjectKind::File { content: None });
            lines.insert(count / 2, ("image.png", "bin"));
            let mut disk = Disk::default();
            let result = walk("out", dir(&lines), &remote, order, &mut disk);
            assert_eq!(result, Err(WalkError::BinaryContentUnsupported));
            assert!(disk.files.len() <= count);
            assert!(!disk.files.contains_key("out/image.png"));
        }
    }
}

#[test]
fn missing_object_below_the_root_fails_the_walk() {
    let root = dir(&[("gone", "nowhere")]);
    let mut disk = Disk::default();
    let result = walk("out", root, &BTreeMap::new(), &oldest, &mut disk);
    assert_eq!(
        result,
        Err(WalkError::IncompleteResponse { missing: subtree_fetch::error::Missing::Object })
    );
}

#[test]
fn empty_root_directory_only_makes_the_directory() {
    let mut disk = Disk::default();
    assert_eq!(walk("out", dir(&[]), &BTreeMap::new(), &oldest, &mut disk), Ok(()));
    assert!(disk.files.is_empty());
    let directories: BTreeSet<String> = [text("out")].into_iter().collect();
    assert_eq!(disk.directories, directories);
}
