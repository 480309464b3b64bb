//! The ways a walk can fail.

use vstd::prelude::*;

verus! {

/// The part that a reply to a lookup lacks.
#[derive(Clone, Copy, Debug, PartialEq, Eq, Structural)]
pub enum Missing {
    /// The reply names no repository.
    Repository,
    /// The repository holds no object at the place asked for.
    Object,
}

/// An object kind that is valid in the remote graph and never valid in a walk.
#[derive(Clone, Copy, Debug, PartialEq, Eq, Structural)]
pub enum Reference {
    Commit,
    Tag,
}

/// Why a walk stopped. Every error is fatal: a walk never retries.
#[derive(Clone, Debug, PartialEq, Eq)]
pub enum WalkError {
    /// The remote call itself failed: transport, status, envelope, or errors
    /// that the remote reported for the query.
    LookupFailed { detail: String },
    /// A well-formed reply that lacks the repository or the object.
    IncompleteResponse { missing: Missing },
    /// The starting point of the walk is a commit or a tag.
    UnsupportedRootKind { reference: Reference },
    /// A directory entry below the starting point is a commit or a tag.
    UnsupportedNestedKind { reference: Reference },
    /// A file whose content is not text.
    BinaryContentUnsupported,
    /// A path that must be a directory is occupied by something else.
    PathConflict { path: String },
    /// Any other failure of local storage.
    Io { detail: String },
}

/// The mathematical value of a [`WalkError`].
pub enum WalkErrorView {
    LookupFailed { detail: Seq<char> },
    IncompleteResponse { missing: Missing },
    UnsupportedRootKind { reference: Reference },
    UnsupportedNestedKind { reference: Reference },
    BinaryContentUnsupported,
    PathConflict { path: Seq<char> },
    Io { detail: Seq<char> },
}

impl View for WalkError {
    type V = WalkErrorView;

    open spec fn view(&self) -> WalkErrorView {
        match *self {
            WalkError::LookupFailed { detail } => WalkErrorView::LookupFailed { detail: detail@ },
            WalkError::IncompleteResponse { missing } => WalkErrorView::IncompleteResponse {
                missing,
            },
            WalkError::UnsupportedRootKind { reference } => WalkErrorView::UnsupportedRootKind {
                reference,
            },
            WalkError::UnsupportedNestedKind { reference } => WalkErrorView::UnsupportedNestedKind {
                reference,
            },
            WalkError::BinaryContentUnsupported => WalkErrorView::BinaryContentUnsupported,
            WalkError::PathConflict { path } => WalkErrorView::PathConflict { path: path@ },
            WalkError::Io { detail } => WalkErrorView::Io { detail: detail@ },
        }
    }
}

/// The text that names an unsupported object kind.
pub open spec fn reference_text(reference: Reference) -> Seq<char> {
    match reference {
        Reference::Commit => "unexpected `commit` object"@,
        Reference::Tag => "unexpected `tag` object"@,
    }
}

/// The text that names the missing part of a reply.
pub open spec fn missing_text(missing: Missing) -> Seq<char> {
    match missing {
        Missing::Repository => "no `repository` member"@,
        Missing::Object => "no `object` member"@,
    }
}

/// The human-readable text of an error.
pub open spec fn message_text(error: WalkErrorView) -> Seq<char> {
    match error {
        WalkErrorView::LookupFailed { detail } => detail,
        WalkErrorView::IncompleteResponse { missing } => missing_text(missing),
        WalkErrorView::UnsupportedRootKind { reference } => reference_text(reference),
        WalkErrorView::UnsupportedNestedKind { reference } => reference_text(reference),
        WalkErrorView::BinaryContentUnsupported => "binary blobs are not supported"@,
        WalkErrorView::PathConflict { path } => "not a directory: "@ + path,
        WalkErrorView::Io { detail } => detail,
    }
}

fn reference_message(reference: Reference) -> (text: String)
    ensures
        text@ == reference_text(reference),
{
    match reference {
        Reference::Commit => String::from_str("unexpected `commit` object"),
        Reference::Tag => String::from_str("unexpected `tag` object"),
    }
}

impl WalkError {
    /// The text shown to the user for this error: the innermost cause.
    pub fn message(&self) -> (text: String)
        ensures
            text@ == message_text(self@),
    {
        match self {
            WalkError::LookupFailed { detail } => detail.clone(),
            WalkError::IncompleteResponse { missing } => match missing {
                Missing::Repository => String::from_str("no `repository` member"),
                Missing::Object => String::from_str("no `object` member"),
            },
            WalkError::UnsupportedRootKind { reference } => reference_message(*reference),
            WalkError::UnsupportedNestedKind { reference } => reference_message(*reference),
            WalkError::BinaryContentUnsupported => String::from_str(
                "binary blobs are not supported",
            ),
            WalkError::PathConflict { path } => String::from_str("not a directory: ").concat(
                path.as_str(),
            ),
            WalkError::Io { detail } => detail.clone(),
        }
    }

    /// The error for a directory that could not be made ready. `occupied`
    /// says whether something that is not a directory stands at `path`;
    /// `detail` is what local storage reported.
    pub fn directory_failure(occupied: bool, path: String, detail: String) -> (error: WalkError)
        ensures
            occupied ==> error@ == (WalkErrorView::PathConflict { path: path@ }),
            !occupied ==> error@ == (WalkErrorView::Io { detail: detail@ }),
    {
        if occupied {
            WalkError::PathConflict { path }
        } else {
            WalkError::Io { detail }
        }
    }
}

} // verus!
