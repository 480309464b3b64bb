use subtree_fetch::error::{Missing, Reference, WalkError};
use subtree_fetch::lookup::{Cont, LookupData, Repository, Start};
use subtree_fetch::object::{Entry, ObjectKind, RemoteObjectId};
use subtree_fetch::plan::{plan, Branch, Depth, Step};

fn text(s: &str) -> String {
    s.to_string()
}

fn found(kind: ObjectKind) -> LookupData {
    LookupData { repository: Some(Repository { object: Some(kind) }) }
}

fn file(content: &str) -> ObjectKind {
    ObjectKind::File { content: Some(text(content)) }
}

fn listing(lines: &[(&str, &str)]) -> ObjectKind {
    ObjectKind::Directory {
        entries: lines
            .iter()
            .map(|(name, id)| Entry { name: text(name), id: RemoteObjectId(text(id)) })
            .collect(),
    }
}

fn branch(path: &str, id: &str) -> Branch {
    Branch { path: text(path), id: RemoteObjectId(text(id)) }
}

#[test]
fn root_file_is_written_to_the_destination() {
    let step = Start::step(text("out.txt"), found(file("hello\n")));
    assert_eq!(step, Ok(Step::WriteFile { path: text("out.txt"), content: text("hello\n") }));
}

#[test]
fn root_commit_is_refused_before_anything_is_written() {
    let step = Start::step(text("out"), found(ObjectKind::CommitReference));
    assert_eq!(step, Err(WalkError::UnsupportedRootKind { reference: Reference::Commit }));
}

#[test]
fn root_tag_is_refused() {
    let step = Start::step(text("out"), found(ObjectKind::TagReference));
    assert_eq!(step, Err(WalkError::UnsupportedRootKind { reference: Reference::Tag }));
}

#[test]
fn nested_commit_and_tag_are_refused_as_nested() {
    assert_eq!(
        Cont::step(text("out/x"), found(ObjectKind::CommitReference)),
        Err(WalkError::UnsupportedNestedKind { reference: Reference::Commit })
    );
    assert_eq!(
        Cont::step(text("out/x"), found(ObjectKind::TagReference)),
        Err(WalkError::UnsupportedNestedKind { reference: Reference::Tag })
    );
}

#[test]
fn binary_file_is_refused_at_any_depth() {
    let binary = ObjectKind::File { content: None };
    assert_eq!(
        Start::step(text("out"), found(binary.clone())),
        Err(WalkError::BinaryContentUnsupported)
    );
    assert_eq!(Cont::step(text("out/x"), found(binary)), Err(WalkError::BinaryContentUnsupported));
}

#[test]
fn nested_file_is_written_to_its_own_path() {
    assert_eq!(
        Cont::step(text("out/a.txt"), found(file("x"))),
        Ok(Step::WriteFile { path: text("out/a.txt"), content: text("x") })
    );
}

#[test]
fn empty_text_is_still_text() {
    assert_eq!(
        Cont::step(text("out/empty"), found(file(""))),
        Ok(Step::WriteFile { path: text("out/empty"), content: text("") })
    );
}

#[test]
fn directory_is_entered_with_one_branch_per_entry() {
    let step = Start::step(text("."), found(listing(&[("a.txt", "id1"), ("sub", "id2")])));
    assert_eq!(
        step,
        Ok(Step::EnterDirectory {
            path: text("."),
            children: vec![branch("./a.txt", "id1"), branch("./sub", "id2")],
            concurrency: 3,
        })
    );
}

#[test]
fn nested_directory_joins_its_own_path_with_each_name() {
    let step = Cont::step(text("./sub"), found(listing(&[("b.txt", "id3")])));
    assert_eq!(
        step,
        Ok(Step::EnterDirectory {
            path: text("./sub"),
            children: vec![branch("./sub/b.txt", "id3")],
            concurrency: 2,
        })
    );
}

#[test]
fn empty_directory_is_entered_with_no_branches() {
    assert_eq!(
        Cont::step(text("out/empty"), found(listing(&[]))),
        Ok(Step::EnterDirectory { path: text("out/empty"), children: Vec::new(), concurrency: 1 })
    );
}

#[test]
fn each_kind_takes_its_own_branch() {
    for depth in [Depth::Root, Depth::Nested] {
        assert!(matches!(plan(depth, text("p"), file("t")), Ok(Step::WriteFile { .. })));
        assert!(matches!(
            plan(depth, text("p"), listing(&[("n", "i")])),
            Ok(Step::EnterDirectory { .. })
        ));
        assert_eq!(
            plan(depth, text("p"), ObjectKind::File { content: None }),
            Err(WalkError::BinaryContentUnsupported)
        );
    }
    assert_eq!(
        plan(Depth::Root, text("p"), ObjectKind::CommitReference),
        Err(WalkError::UnsupportedRootKind { reference: Reference::Commit })
    );
    assert_eq!(
        plan(Depth::Nested, text("p"), ObjectKind::CommitReference),
        Err(WalkError::UnsupportedNestedKind { reference: Reference::Commit })
    );
    assert_eq!(
        plan(Depth::Root, text("p"), ObjectKind::TagReference),
        Err(WalkError::UnsupportedRootKind { reference: Reference::Tag })
    );
    assert_eq!(
        plan(Depth::Nested, text("p"), ObjectKind::TagReference),
        Err(WalkError::UnsupportedNestedKind { reference: Reference::Tag })
    );
}

#[test]
fn incomplete_reply_stops_the_step() {
    assert_eq!(
        Start::step(text("out"), LookupData { repository: None }),
        Err(WalkError::IncompleteResponse { missing: Missing::Repository })
    );
    assert_eq!(
        Start::step(text("out"), LookupData { repository: Some(Repository { object: None }) }),
        Err(WalkError::IncompleteResponse { missing: Missing::Object })
    );
    assert_eq!(
        Cont::step(text("out/x"), LookupData { repository: None }),
        Err(WalkError::IncompleteResponse { missing: Missing::Repository })
    );
    assert_eq!(
        Cont::step(text("out/x"), LookupData { repository: Some(Repository { object: None }) }),
        Err(WalkError::IncompleteResponse { missing: Missing::Object })
    );
}

#[test]
fn progress_names_kind_and_path() {
    let write = Step::WriteFile { path: text("out/a.txt"), content: text("x") };
    assert_eq!(write.progress(), "blob out/a.txt");
    let enter = Step::EnterDirectory { path: text("out/sub"), children: Vec::new(), concurrency: 1 };
    assert_eq!(enter.progress(), "tree out/sub");
}
