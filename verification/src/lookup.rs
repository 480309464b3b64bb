//! The two lookups of a walk: the first, by a revision-and-path expression,
//! and every later one, by object id. Both come back in the same shape.

use crate::error::{Missing, WalkError, WalkErrorView};
use crate::object::{ObjectKind, ObjectKindView};
use crate::path::{normalize_remote_path, normalized};
use crate::plan::{answered, is_outcome, plan, Depth, Step, StepView};
use vstd::prelude::*;

verus! {

/// The repository member of a reply: the object found, if any.
#[derive(Clone, Debug, PartialEq, Eq)]
pub struct Repository {
    pub object: Option<ObjectKind>,
}

/// The data of a reply to either lookup: the repository, if the remote
/// knows it.
#[derive(Clone, Debug, PartialEq, Eq)]
pub struct LookupData {
    pub repository: Option<Repository>,
}

/// What the data of a reply resolves to: the object's kind, or what the
/// reply lacks.
pub open spec fn resolved(data: LookupData) -> Result<ObjectKindView, WalkErrorView> {
    match data.repository {
        None => Err(WalkErrorView::IncompleteResponse { missing: Missing::Repository }),
        Some(repository) => match repository.object {
            None => Err(WalkErrorView::IncompleteResponse { missing: Missing::Object }),
            Some(kind) => Ok(kind@),
        },
    }
}

/// The outcome of the step for a node at `depth` that is to go to `path`,
/// from the data of the reply to its lookup.
pub open spec fn stepped(depth: Depth, path: Seq<char>, data: LookupData) -> Result<
    StepView,
    WalkErrorView,
> {
    answered(depth, path, resolved(data))
}

/// Takes the object out of the data of a reply. A reply without repository,
/// or without object in it, is incomplete.
pub fn resolve(data: LookupData) -> (result: Result<ObjectKind, WalkError>)
    ensures
        match resolved(data) {
            Ok(kind) => result matches Ok(found) && found@ == kind,
            Err(error) => result matches Err(raised) && raised@ == error,
        },
{
    match data.repository {
        None => Err(WalkError::IncompleteResponse { missing: Missing::Repository }),
        Some(repository) => match repository.object {
            None => Err(WalkError::IncompleteResponse { missing: Missing::Object }),
            Some(kind) => Ok(kind),
        },
    }
}

fn step_at(depth: Depth, path: String, data: LookupData) -> (result: Result<Step, WalkError>)
    ensures
        is_outcome(result, stepped(depth, path@, data)),
{
    match resolve(data) {
        Ok(kind) => plan(depth, path, kind),
        Err(error) => Err(error),
    }
}

/// The expression that names `path` at the revision `commit_ish`.
pub open spec fn expression_text(commit_ish: Seq<char>, path: Seq<char>) -> Seq<char> {
    commit_ish + seq![':'] + path
}

/// The first lookup of a walk.
#[derive(Clone, Copy, Debug, PartialEq, Eq)]
pub struct Start;

impl Start {
    /// Puts the lookup key together from a revision and a path that is
    /// already relative to the repository root: the revision, a colon, the
    /// path.
    pub fn compose(commit_ish: &str, relative_path: &str) -> (key: String)
        ensures
            key@ == expression_text(commit_ish@, relative_path@),
    {
        proof {
            reveal_strlit(":");
            assert(":"@ =~= seq![':']);
        }
        String::from_str(commit_ish).concat(":").concat(relative_path)
    }

    /// The lookup key for the path asked for at the revision `commit_ish`.
    /// The path is normalized first, so one that looks absolute is accepted.
    pub fn expression(commit_ish: &str, remote_path: &str) -> (key: String)
        ensures
            key@ == expression_text(commit_ish@, normalized(remote_path@)),
    {
        let relative = normalize_remote_path(remote_path);
        Start::compose(commit_ish, relative.as_str())
    }

    /// The step for the starting point, which is to go to `path`. Nothing is
    /// written before this step is known.
    pub fn step(path: String, data: LookupData) -> (result: Result<Step, WalkError>)
        ensures
            is_outcome(result, stepped(Depth::Root, path@, data)),
    {
        step_at(Depth::Root, path, data)
    }
}

/// Every lookup after the first.
#[derive(Clone, Copy, Debug, PartialEq, Eq)]
pub struct Cont;

impl Cont {
    /// The step for a node reached through a directory entry, which is to go
    /// to `path`.
    pub fn step(path: String, data: LookupData) -> (result: Result<Step, WalkError>)
        ensures
            is_outcome(result, stepped(Depth::Nested, path@, data)),
    {
        step_at(Depth::Nested, path, data)
    }
}

} // verus!
