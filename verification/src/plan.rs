//! What to do with one node of the walk once its lookup has resolved.

use crate::error::{Reference, WalkError, WalkErrorView};
use crate::fan_out::{fan_out_limit, spec_fan_out_limit};
use crate::object::{listing, Entry, EntryView, ObjectKind, ObjectKindView, RemoteObjectId};
use crate::path::{join, path_join};
use vstd::prelude::*;

verus! {

/// Where a node stands in the walk.
#[derive(Clone, Copy, Debug, PartialEq, Eq, Structural)]
pub enum Depth {
    /// The starting point.
    Root,
    /// Anything reached through a directory entry.
    Nested,
}

/// A node that is still to be looked up: where it goes locally and which
/// remote object it is.
#[derive(Clone, Debug, PartialEq, Eq)]
pub struct Branch {
    pub path: String,
    pub id: RemoteObjectId,
}

/// The mathematical value of a [`Branch`].
pub struct BranchView {
    pub path: Seq<char>,
    pub id: Seq<char>,
}

impl View for Branch {
    type V = BranchView;

    open spec fn view(&self) -> BranchView {
        BranchView { path: self.path@, id: self.id@ }
    }
}

/// The branches that a sequence of them stands for, in the same order.
pub open spec fn branches(children: Seq<Branch>) -> Seq<BranchView> {
    children.map_values(|child: Branch| child@)
}

/// The one thing to do for a node whose lookup resolved to something the
/// walk supports.
#[derive(Clone, Debug, PartialEq, Eq)]
pub enum Step {
    /// Write `content` to the file at `path`, replacing what is there, after
    /// making sure that the directories above it exist.
    WriteFile { path: String, content: String },
    /// Make sure `path` exists as a directory, then look up every child, at
    /// most `concurrency` of them at a time, and take a step for each.
    EnterDirectory { path: String, children: Vec<Branch>, concurrency: usize },
}

/// The mathematical value of a [`Step`].
pub enum StepView {
    WriteFile { path: Seq<char>, content: Seq<char> },
    EnterDirectory { path: Seq<char>, children: Seq<BranchView>, concurrency: nat },
}

impl View for Step {
    type V = StepView;

    open spec fn view(&self) -> StepView {
        match *self {
            Step::WriteFile { path, content } => StepView::WriteFile {
                path: path@,
                content: content@,
            },
            Step::EnterDirectory { path, children, concurrency } => StepView::EnterDirectory {
                path: path@,
                children: branches(children@),
                concurrency: concurrency as nat,
            },
        }
    }
}

/// The branch for one entry of the directory at `parent`: the entry's object
/// at the parent's path joined with the entry's name.
pub open spec fn child_branch(parent: Seq<char>, entry: EntryView) -> BranchView {
    BranchView { path: path_join(parent, entry.name), id: entry.id }
}

/// The branches for the entries of the directory at `parent`, one for each
/// entry and in the order of the listing.
pub open spec fn child_branches(parent: Seq<char>, entries: Seq<EntryView>) -> Seq<BranchView> {
    entries.map_values(|entry: EntryView| child_branch(parent, entry))
}

/// The error for a commit or a tag found at this depth.
pub open spec fn unsupported(depth: Depth, reference: Reference) -> WalkErrorView {
    match depth {
        Depth::Root => WalkErrorView::UnsupportedRootKind { reference },
        Depth::Nested => WalkErrorView::UnsupportedNestedKind { reference },
    }
}

/// The step for an object of this kind that is to go to `path`, or the error
/// that ends the walk. Each kind has one outcome and no other:
/// a file with text is written, a file without text is refused, a directory
/// is entered, and a commit or a tag is refused by the name of its depth.
pub open spec fn planned(depth: Depth, path: Seq<char>, kind: ObjectKindView) -> Result<
    StepView,
    WalkErrorView,
> {
    match kind {
        ObjectKindView::File { content: Some(content) } => Ok(
            StepView::WriteFile { path, content },
        ),
        ObjectKindView::File { content: None } => Err(WalkErrorView::BinaryContentUnsupported),
        ObjectKindView::Directory { entries } => Ok(
            StepView::EnterDirectory {
                path,
                children: child_branches(path, entries),
                concurrency: spec_fan_out_limit(entries.len()),
            },
        ),
        ObjectKindView::CommitReference => Err(unsupported(depth, Reference::Commit)),
        ObjectKindView::TagReference => Err(unsupported(depth, Reference::Tag)),
    }
}

/// For each of the four kinds the walk takes the branch that belongs to it
/// and no other: writing is for files with text and only for them, entering
/// is for directories and only for them, and each refusal names the one
/// kind that it is for.
pub proof fn lemma_one_branch_per_kind(depth: Depth, path: Seq<char>, kind: ObjectKindView)
    ensures
        (planned(depth, path, kind) matches Ok(StepView::WriteFile { .. })) <==> (kind matches ObjectKindView::File {
            content: Some(_),
        }),
        (planned(depth, path, kind) matches Ok(StepView::EnterDirectory { .. })) <==> kind
            is Directory,
        planned(depth, path, kind) == Err::<StepView, WalkErrorView>(
            WalkErrorView::BinaryContentUnsupported,
        ) <==> kind == (ObjectKindView::File { content: None }),
        planned(depth, path, kind) == Err::<StepView, WalkErrorView>(
            unsupported(depth, Reference::Commit),
        ) <==> kind is CommitReference,
        planned(depth, path, kind) == Err::<StepView, WalkErrorView>(
            unsupported(depth, Reference::Tag),
        ) <==> kind is TagReference,
{
}

/// A directory is entered with one branch for each of its entries, each at
/// the directory's path joined with the entry's name, and with a bound on
/// concurrent lookups of exactly one more than the entries, so that every
/// sibling can be in flight at once.
pub proof fn lemma_entering_fans_out(depth: Depth, path: Seq<char>, entries: Seq<EntryView>)
    ensures
        planned(depth, path, ObjectKindView::Directory { entries }) matches Ok(
            StepView::EnterDirectory { path: entered, children, concurrency },
        ) && entered == path && children.len() == entries.len() && (forall|i: int|
            0 <= i < entries.len() ==> (#[trigger] children[i]).path == path_join(
                path,
                entries[i].name,
            ) && children[i].id == entries[i].id) && (entries.len() < usize::MAX
            ==> concurrency == entries.len() + 1),
{
}

/// The outcome for a node at `depth` that is to go to `path`, from what its
/// lookup came to: the kind of the object found, or the error that the
/// lookup ended in, which is handed on as it is.
pub open spec fn answered(
    depth: Depth,
    path: Seq<char>,
    answer: Result<ObjectKindView, WalkErrorView>,
) -> Result<StepView, WalkErrorView> {
    match answer {
        Ok(kind) => planned(depth, path, kind),
        Err(error) => Err(error),
    }
}

/// Whether `result` is the outcome `expected`, value for value.
pub open spec fn is_outcome(
    result: Result<Step, WalkError>,
    expected: Result<StepView, WalkErrorView>,
) -> bool {
    match expected {
        Ok(step) => result matches Ok(taken) && taken@ == step,
        Err(error) => result matches Err(raised) && raised@ == error,
    }
}

/// Fans a directory out: one branch for every entry, at the directory's
/// path joined with the entry's name, in the order of the listing.
pub fn fan_out(path: &str, entries: &Vec<Entry>) -> (children: Vec<Branch>)
    ensures
        branches(children@) == child_branches(path@, listing(entries@)),
{
    let mut children: Vec<Branch> = Vec::new();
    let mut i: usize = 0;
    while i < entries.len()
        invariant
            i <= entries.len(),
            children@.len() == i,
            forall|k: int|
                0 <= k < i ==> (#[trigger] children@[k])@ == child_branch(path@, entries@[k]@),
        decreases entries.len() - i,
    {
        let entry = &entries[i];
        let child = Branch {
            path: join(path, entry.name.as_str()),
            id: RemoteObjectId(entry.id.0.clone()),
        };
        children.push(child);
        i = i + 1;
    }
    assert(branches(children@) =~= child_branches(path@, listing(entries@)));
    children
}

fn refuse(depth: Depth, reference: Reference) -> (error: WalkError)
    ensures
        error@ == unsupported(depth, reference),
{
    match depth {
        Depth::Root => WalkError::UnsupportedRootKind { reference },
        Depth::Nested => WalkError::UnsupportedNestedKind { reference },
    }
}

/// Decides what to do with the object that the lookup for `path` resolved
/// to. See [`planned`] for the rule.
pub fn plan(depth: Depth, path: String, kind: ObjectKind) -> (result: Result<Step, WalkError>)
    ensures
        is_outcome(result, planned(depth, path@, kind@)),
{
    match kind {
        ObjectKind::File { content: Some(content) } => Ok(Step::WriteFile { path, content }),
        ObjectKind::File { content: None } => Err(WalkError::BinaryContentUnsupported),
        ObjectKind::Directory { entries } => {
            let children = fan_out(path.as_str(), &entries);
            let concurrency = fan_out_limit(entries.len());
            assert(listing(entries@).len() == entries@.len());
            Ok(Step::EnterDirectory { path, children, concurrency })
        },
        ObjectKind::CommitReference => Err(refuse(depth, Reference::Commit)),
        ObjectKind::TagReference => Err(refuse(depth, Reference::Tag)),
    }
}

impl Step {
    /// The line that reports this step: the kind of the node, a space, and
    /// its local path.
    pub fn progress(&self) -> (line: String)
        ensures
            line@ == match self@ {
                StepView::WriteFile { path, .. } => "blob "@ + path,
                StepView::EnterDirectory { path, .. } => "tree "@ + path,
            },
    {
        match self {
            Step::WriteFile { path, .. } => String::from_str("blob ").concat(path.as_str()),
            Step::EnterDirectory { path, .. } => String::from_str("tree ").concat(path.as_str()),
        }
    }
}

} // verus!
