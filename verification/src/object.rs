//! What a lookup can resolve to.

use vstd::prelude::*;

verus! {

/// The identifier that the remote assigns to one node of its object graph.
/// It is opaque: the walk only hands it back as the key of the next lookup.
#[derive(Clone, Debug, PartialEq, Eq)]
pub struct RemoteObjectId(pub String);

impl View for RemoteObjectId {
    type V = Seq<char>;

    open spec fn view(&self) -> Seq<char> {
        self.0@
    }
}

/// One line of a directory listing: a name and the object it refers to.
#[derive(Clone, Debug, PartialEq, Eq)]
pub struct Entry {
    pub name: String,
    pub id: RemoteObjectId,
}

/// The mathematical value of an [`Entry`].
pub struct EntryView {
    pub name: Seq<char>,
    pub id: Seq<char>,
}

impl View for Entry {
    type V = EntryView;

    open spec fn view(&self) -> EntryView {
        EntryView { name: self.name@, id: self.id@ }
    }
}

/// The listing that a sequence of entries stands for, in the same order.
pub open spec fn listing(entries: Seq<Entry>) -> Seq<EntryView> {
    entries.map_values(|entry: Entry| entry@)
}

/// The kind of a remote object, with what the walk reads of it.
#[derive(Clone, Debug, PartialEq, Eq)]
pub enum ObjectKind {
    /// A file. `content` is `None` when the payload is not text.
    File { content: Option<String> },
    /// A directory with its entries, in the order the remote lists them.
    Directory { entries: Vec<Entry> },
    /// A commit: valid in the graph, never valid in a walk.
    CommitReference,
    /// A tag: valid in the graph, never valid in a walk.
    TagReference,
}

/// The mathematical value of an [`ObjectKind`].
pub enum ObjectKindView {
    File { content: Option<Seq<char>> },
    Directory { entries: Seq<EntryView> },
    CommitReference,
    TagReference,
}

/// The mathematical value of an optional text.
pub open spec fn text_view(text: Option<String>) -> Option<Seq<char>> {
    match text {
        Some(text) => Some(text@),
        None => None,
    }
}

impl View for ObjectKind {
    type V = ObjectKindView;

    open spec fn view(&self) -> ObjectKindView {
        match *self {
            ObjectKind::File { content } => ObjectKindView::File { content: text_view(content) },
            ObjectKind::Directory { entries } => ObjectKindView::Directory {
                entries: listing(entries@),
            },
            ObjectKind::CommitReference => ObjectKindView::CommitReference,
            ObjectKind::TagReference => ObjectKindView::TagReference,
        }
    }
}

impl ObjectKind {
    /// A file object from the text that the remote sent, if it sent any.
    pub fn file(text: Option<String>) -> (kind: ObjectKind)
        ensures
            kind@ == (ObjectKindView::File { content: text_view(text) }),
    {
        ObjectKind::File { content: text }
    }

    /// A directory object from the listing that the remote sent. A listing
    /// that is absent stands for a directory without entries.
    pub fn directory(entries: Option<Vec<Entry>>) -> (kind: ObjectKind)
        ensures
            kind@ == (ObjectKindView::Directory {
                entries: match entries {
                    Some(entries) => listing(entries@),
                    None => Seq::empty(),
                },
            }),
    {
        match entries {
            Some(entries) => ObjectKind::Directory { entries },
            None => {
                let entries: Vec<Entry> = Vec::new();
                assert(listing(entries@) =~= Seq::empty());
                ObjectKind::Directory { entries }
            },
        }
    }
}

} // verus!
