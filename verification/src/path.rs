//! Paths: the place asked for in the repository, and the places written to
//! on local storage. Both are read by the path grammar of the platform the
//! crate is built for, as `camino` implements it.

use camino::Utf8Path;
use vstd::prelude::*;

verus! {

/// Whether `camino::Utf8Path::is_absolute` holds of the path with this text.
pub uninterp spec fn path_is_absolute(path: Seq<char>) -> bool;

/// The texts of the components that `camino::Utf8Path::components` yields for
/// the path with this text, first to last.
pub uninterp spec fn path_components(path: Seq<char>) -> Seq<Seq<char>>;

/// The text of the path that `camino::Utf8Path::join` makes of `base` and
/// `tail`.
pub uninterp spec fn path_join(base: Seq<char>, tail: Seq<char>) -> Seq<char>;

/// `camino::Utf8Path::is_absolute` on the path that `path` spells. The
/// contract only gives the answer its name.
#[verifier::external_body]
fn is_absolute(path: &str) -> (absolute: bool)
    ensures
        absolute == path_is_absolute(path@),
{
    Utf8Path::new(path).is_absolute()
}

/// `camino::Utf8Path::components` on the path that `path` spells, each
/// component handed out as its text (`Utf8Component::as_str`). The contract
/// only gives the list its name.
#[verifier::external_body]
fn components(path: &str) -> (parts: Vec<String>)
    ensures
        parts.deep_view() == path_components(path@),
{
    Utf8Path::new(path).components().map(|part| part.as_str().to_owned()).collect()
}

/// `camino::Utf8Path::join`: the path `base` with `tail` adjoined, as text.
/// The contract only gives the result its name.
#[verifier::external_body]
pub(crate) fn join(base: &str, tail: &str) -> (joined: String)
    ensures
        joined@ == path_join(base@, tail@),
{
    Utf8Path::new(base).join(tail).into_string()
}

/// The path reached from `base` by adjoining `names` one after another.
pub open spec fn path_under(base: Seq<char>, names: Seq<Seq<char>>) -> Seq<char>
    decreases names.len(),
{
    if names.len() == 0 {
        base
    } else {
        path_join(path_under(base, names.drop_last()), names.last())
    }
}

/// All components but the topmost.
pub open spec fn below_topmost(parts: Seq<Seq<char>>) -> Seq<Seq<char>> {
    if parts.len() == 0 {
        parts
    } else {
        parts.subrange(1, parts.len() as int)
    }
}

/// The path relative to the repository root that a requested path stands
/// for, given whether it is absolute and what its components are: an
/// absolute path loses its topmost component and the rest is put together
/// again; any other path stays as it is.
pub open spec fn relative_path(path: Seq<char>, absolute: bool, parts: Seq<Seq<char>>) -> Seq<
    char,
> {
    if absolute {
        path_under(Seq::empty(), below_topmost(parts))
    } else {
        path
    }
}

/// The requested path in the form that a lookup takes.
pub open spec fn normalized(path: Seq<char>) -> Seq<char> {
    relative_path(path, path_is_absolute(path), path_components(path))
}

/// Turns a requested path into one relative to the repository root, from
/// what is known of it: `absolute` and its components `parts`. A path that
/// looks absolute is not refused: its topmost component goes, and what is
/// left is joined in order, starting from the empty path.
pub fn relative_to_root(path: &str, absolute: bool, parts: &Vec<String>) -> (relative: String)
    ensures
        relative@ == relative_path(path@, absolute, parts.deep_view()),
{
    if !absolute {
        return path.to_owned();
    }
    let ghost all = parts.deep_view();
    let mut relative = String::new();
    if parts.len() == 0 {
        return relative;
    }
    let mut i: usize = 1;
    while i < parts.len()
        invariant
            1 <= i <= parts.len(),
            all == parts.deep_view(),
            relative@ == path_under(Seq::empty(), all.subrange(1, i as int)),
        decreases parts.len() - i,
    {
        proof {
            let next = all.subrange(1, i + 1);
            assert(next.drop_last() =~= all.subrange(1, i as int));
            assert(next.last() == parts[i as int]@);
        }
        relative = join(relative.as_str(), parts[i].as_str());
        i = i + 1;
    }
    relative
}

/// Normalizes the path asked for in the repository. See [`relative_to_root`]
/// for the rule; this function asks the path grammar the two questions that
/// the rule depends on.
pub fn normalize_remote_path(path: &str) -> (normal: String)
    ensures
        normal@ == normalized(path@),
{
    let absolute = is_absolute(path);
    let parts = components(path);
    relative_to_root(path, absolute, &parts)
}

/// Adjoining the names of a chain one by one is adjoining the chain:
/// the path one level further down is the parent's path joined with the
/// entry's name, at every depth.
pub proof fn lemma_path_under_step(base: Seq<char>, names: Seq<Seq<char>>, name: Seq<char>)
    ensures
        path_under(base, names.push(name)) == path_join(path_under(base, names), name),
{
    assert(names.push(name).drop_last() =~= names);
}

} // verus!
