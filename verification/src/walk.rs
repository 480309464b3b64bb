//! A whole walk, as a sequence of lookups that complete one by one in any
//! order, and what holds of it whatever the order.
//!
//! The walk itself is driven from outside: a driver performs the lookups and
//! the writes. What it decides at each completed lookup is
//! [`answered`](crate::plan::answered), the outcome that
//! [`Start::step`](crate::lookup::Start::step) and
//! [`Cont::step`](crate::lookup::Cont::step) return. This module puts those
//! decisions in a row.

use crate::error::WalkErrorView;
use crate::object::{EntryView, ObjectKindView};
use crate::path::{lemma_path_under_step, path_join, path_under};
use crate::plan::{answered, Depth, StepView};
use vstd::prelude::*;

verus! {

/// What the remote holds at one node and below it: for a directory, every
/// entry with what its own lookup will find.
pub enum Remote {
    /// The lookup of this node ends in an error.
    Unavailable { error: WalkErrorView },
    /// A file, with its text if it has one.
    File { content: Option<Seq<char>> },
    /// A directory.
    Directory { entries: Seq<RemoteEntry> },
    /// A commit.
    CommitReference,
    /// A tag.
    TagReference,
}

/// One entry of a remote directory: its line in the listing and the node
/// that the line refers to.
pub struct RemoteEntry {
    pub name: Seq<char>,
    pub id: Seq<char>,
    pub node: Remote,
}

/// The line of the listing that an entry shows.
pub open spec fn entry_line(entry: RemoteEntry) -> EntryView {
    EntryView { name: entry.name, id: entry.id }
}

/// The entries of a node: those of a directory, none of anything else.
pub open spec fn entries_of(node: Remote) -> Seq<RemoteEntry> {
    match node {
        Remote::Directory { entries } => entries,
        _ => Seq::empty(),
    }
}

/// What the lookup of a node comes to.
pub open spec fn answer_of(node: Remote) -> Result<ObjectKindView, WalkErrorView> {
    match node {
        Remote::Unavailable { error } => Err(error),
        Remote::File { content } => Ok(ObjectKindView::File { content }),
        Remote::Directory { entries } => Ok(
            ObjectKindView::Directory {
                entries: entries.map_values(|entry: RemoteEntry| entry_line(entry)),
            },
        ),
        Remote::CommitReference => Ok(ObjectKindView::CommitReference),
        Remote::TagReference => Ok(ObjectKindView::TagReference),
    }
}

/// A lookup in flight: the node it is for, where that node goes locally,
/// and the names of the entries that lead to it from the starting point.
pub struct Pending {
    pub depth: Depth,
    pub path: Seq<char>,
    pub trail: Seq<Seq<char>>,
    pub node: Remote,
}

/// The outcome of the step that is taken when this lookup completes.
pub open spec fn outcome(pending: Pending) -> Result<StepView, WalkErrorView> {
    answered(pending.depth, pending.path, answer_of(pending.node))
}

/// Something that a walk has put on local storage.
pub enum Effect {
    /// The file at `path` holds `content`.
    File { path: Seq<char>, content: Seq<char> },
    /// `path` is a directory.
    Directory { path: Seq<char> },
}

/// What taking a step puts on local storage.
pub open spec fn effect_of(step: StepView) -> Effect {
    match step {
        StepView::WriteFile { path, content } => Effect::File { path, content },
        StepView::EnterDirectory { path, .. } => Effect::Directory { path },
    }
}

/// The lookups that a step sets off: for a directory, one for each child
/// branch, each for the node of the entry it was made from; for a file, none.
pub open spec fn set_off(pending: Pending, step: StepView) -> Seq<Pending> {
    match step {
        StepView::WriteFile { .. } => Seq::empty(),
        StepView::EnterDirectory { children, .. } => Seq::new(
            children.len(),
            |i: int|
                Pending {
                    depth: Depth::Nested,
                    path: children[i].path,
                    trail: pending.trail.push(entries_of(pending.node)[i].name),
                    node: entries_of(pending.node)[i].node,
                },
        ),
    }
}

/// The state of a walk between two completions.
pub struct Progress {
    /// The lookups in flight.
    pub pending: Seq<Pending>,
    /// What has been put on local storage, in the order it happened.
    pub done: Seq<Effect>,
    /// The error that ended the walk, if one did.
    pub failure: Option<WalkErrorView>,
}

/// The state of a walk that is about to look up its starting point, which
/// is to go to `path`.
pub open spec fn begin(path: Seq<char>, node: Remote) -> Progress {
    Progress {
        pending: seq![Pending { depth: Depth::Root, path, trail: Seq::empty(), node }],
        done: Seq::empty(),
        failure: None,
    }
}

/// The state after the lookup at position `k` of those in flight completes.
/// A walk that has failed stays as it is: the first error wins. Otherwise
/// the lookup leaves the ones in flight; an error ends the walk, and a step
/// is taken at once and sets off the lookups of the children.
pub open spec fn advance(state: Progress, k: int) -> Progress {
    if state.failure is Some || !(0 <= k < state.pending.len()) {
        state
    } else {
        let current = state.pending[k];
        let others = state.pending.remove(k);
        match outcome(current) {
            Err(error) => Progress { pending: others, done: state.done, failure: Some(error) },
            Ok(step) => Progress {
                pending: others + set_off(current, step),
                done: state.done.push(effect_of(step)),
                failure: None,
            },
        }
    }
}

/// The state after the lookups complete in the order that `schedule` gives:
/// each number is the position, among those in flight at that moment, of
/// the lookup that completes next.
pub open spec fn run(state: Progress, schedule: Seq<int>) -> Progress
    decreases schedule.len(),
{
    if schedule.len() == 0 {
        state
    } else {
        advance(run(state, schedule.drop_last()), schedule.last())
    }
}

/// A walk that went through: nothing failed and nothing is in flight.
pub open spec fn finished(state: Progress) -> bool {
    state.failure is None && state.pending.len() == 0
}

/// A walk that has come to its end, one way or the other.
pub open spec fn ended(state: Progress) -> bool {
    state.failure is Some || state.pending.len() == 0
}

/// What the step for this lookup puts on local storage, if one is taken.
pub open spec fn effect_at(pending: Pending) -> Option<Effect> {
    match outcome(pending) {
        Ok(step) => Some(effect_of(step)),
        Err(_) => None,
    }
}

/// The error that this lookup ends in, if it does.
pub open spec fn error_at(pending: Pending) -> Option<WalkErrorView> {
    match outcome(pending) {
        Ok(_) => None,
        Err(error) => Some(error),
    }
}

/// The lookups that follow when this one completes.
pub open spec fn following(pending: Pending) -> Seq<Pending> {
    match outcome(pending) {
        Ok(step) => set_off(pending, step),
        Err(_) => Seq::empty(),
    }
}

/// Whether `route` leads from this lookup down to one that the walk sets
/// off: each number is the position of an entry in the listing of the
/// directory reached so far.
pub open spec fn leads(pending: Pending, route: Seq<int>) -> bool
    decreases route.len(),
{
    route.len() == 0 || (0 <= route[0] < following(pending).len() && leads(
        following(pending)[route[0]],
        route.skip(1),
    ))
}

/// The lookup that `route` leads to.
pub open spec fn reached(pending: Pending, route: Seq<int>) -> Pending
    decreases route.len(),
{
    if route.len() == 0 {
        pending
    } else {
        reached(following(pending)[route[0]], route.skip(1))
    }
}

/// Whether a walk of this node, placed as `pending` says, puts `effect` on
/// local storage if it goes through: the step for the node, or for one
/// below it, does.
pub open spec fn brings(pending: Pending, effect: Effect) -> bool {
    exists|route: Seq<int>| #[trigger]
        leads(pending, route) && effect_at(reached(pending, route)) == Some(effect)
}

/// Whether the lookup of this node, placed as `pending` says, or of one
/// below it that the walk gets to, ends in `error`.
pub open spec fn raises(pending: Pending, error: WalkErrorView) -> bool {
    exists|route: Seq<int>| #[trigger]
        leads(pending, route) && error_at(reached(pending, route)) == Some(error)
}

/// Whether `effect` is on local storage in this state, or will be once the
/// lookups in flight and all that follow from them have gone through.
pub open spec fn in_store(state: Progress, effect: Effect) -> bool {
    state.done.contains(effect) || exists|i: int|
        0 <= i < state.pending.len() && #[trigger] brings(state.pending[i], effect)
}

/// Whether a lookup in flight, or one that follows from it, ends in `error`.
pub open spec fn at_risk(state: Progress, error: WalkErrorView) -> bool {
    exists|i: int| 0 <= i < state.pending.len() && #[trigger] raises(state.pending[i], error)
}

/// What a lookup brings is what its own step brings and what the lookups
/// that follow from it bring.
proof fn lemma_brings_unfolds(pending: Pending, effect: Effect)
    ensures
        brings(pending, effect) <==> (effect_at(pending) == Some(effect) || exists|j: int|
            0 <= j < following(pending).len() && #[trigger] brings(following(pending)[j], effect)),
{
    if brings(pending, effect) {
        let route = choose|route: Seq<int>| #[trigger]
            leads(pending, route) && effect_at(reached(pending, route)) == Some(effect);
        if route.len() > 0 {
            let j = route[0];
            assert(leads(following(pending)[j], route.skip(1)));
            assert(brings(following(pending)[j], effect));
        }
    }
    if effect_at(pending) == Some(effect) {
        assert(leads(pending, Seq::<int>::empty()));
    }
    if exists|j: int|
        0 <= j < following(pending).len() && #[trigger] brings(following(pending)[j], effect) {
        let j = choose|j: int|
            0 <= j < following(pending).len() && #[trigger] brings(following(pending)[j], effect);
        let rest = choose|rest: Seq<int>| #[trigger]
            leads(following(pending)[j], rest) && effect_at(reached(following(pending)[j], rest))
                == Some(effect);
        let route = seq![j] + rest;
        assert(route.skip(1) =~= rest);
        assert(leads(pending, route));
        assert(reached(pending, route) == reached(following(pending)[j], rest));
    }
}

/// What a lookup raises is what it ends in itself and what the lookups that
/// follow from it raise.
proof fn lemma_raises_unfolds(pending: Pending, error: WalkErrorView)
    ensures
        raises(pending, error) <==> (error_at(pending) == Some(error) || exists|j: int|
            0 <= j < following(pending).len() && #[trigger] raises(following(pending)[j], error)),
{
    if raises(pending, error) {
        let route = choose|route: Seq<int>| #[trigger]
            leads(pending, route) && error_at(reached(pending, route)) == Some(error);
        if route.len() > 0 {
            let j = route[0];
            assert(leads(following(pending)[j], route.skip(1)));
            assert(raises(following(pending)[j], error));
        }
    }
    if error_at(pending) == Some(error) {
        assert(leads(pending, Seq::<int>::empty()));
    }
    if exists|j: int|
        0 <= j < following(pending).len() && #[trigger] raises(following(pending)[j], error) {
        let j = choose|j: int|
            0 <= j < following(pending).len() && #[trigger] raises(following(pending)[j], error);
        let rest = choose|rest: Seq<int>| #[trigger]
            leads(following(pending)[j], rest) && error_at(reached(following(pending)[j], rest))
                == Some(error);
        let route = seq![j] + rest;
        assert(route.skip(1) =~= rest);
        assert(leads(pending, route));
        assert(reached(pending, route) == reached(following(pending)[j], rest));
    }
}

/// A completion that does not fail changes nothing about what the walk
/// brings: what the completed lookup was to bring is done or in flight.
proof fn lemma_advance_keeps_store(state: Progress, k: int, effect: Effect)
    requires
        state.failure is None,
        advance(state, k).failure is None,
    ensures
        in_store(advance(state, k), effect) <==> in_store(state, effect),
{
    if 0 <= k < state.pending.len() {
        let current = state.pending[k];
        let others = state.pending.remove(k);
        let step = outcome(current)->Ok_0;
        let fresh = following(current);
        let next = advance(state, k);
        lemma_brings_unfolds(current, effect);
        assert(next.pending == others + fresh);
        assert(next.done == state.done.push(effect_of(step)));
        if in_store(state, effect) {
            if state.done.contains(effect) {
                let i = choose|i: int| 0 <= i < state.done.len() && state.done[i] == effect;
                assert(next.done[i] == effect);
            } else {
                let i = choose|i: int|
                    0 <= i < state.pending.len() && brings(state.pending[i], effect);
                if i < k {
                    assert(next.pending[i] == state.pending[i]);
                } else if i > k {
                    assert(next.pending[i - 1] == state.pending[i]);
                } else if effect == effect_of(step) {
                    assert(next.done[state.done.len() as int] == effect);
                } else {
                    let j = choose|j: int| 0 <= j < fresh.len() && brings(fresh[j], effect);
                    assert(next.pending[others.len() + j] == fresh[j]);
                }
            }
            assert(in_store(next, effect));
        }
        if in_store(next, effect) {
            if next.done.contains(effect) {
                let i = choose|i: int| 0 <= i < next.done.len() && next.done[i] == effect;
                if i < state.done.len() {
                    assert(state.done[i] == effect);
                } else {
                    assert(brings(current, effect));
                }
            } else {
                let i = choose|i: int|
                    0 <= i < next.pending.len() && brings(next.pending[i], effect);
                if i < k {
                    assert(next.pending[i] == state.pending[i]);
                } else if i < others.len() {
                    assert(next.pending[i] == state.pending[i + 1]);
                } else {
                    let j = i - others.len();
                    assert(next.pending[i] == fresh[j]);
                    assert(brings(fresh[j], effect));
                    assert(brings(current, effect));
                }
            }
            assert(in_store(state, effect));
        }
    }
}

/// A completion that does not fail changes nothing about the errors that
/// the walk can still end in; one that fails ends in one of them.
proof fn lemma_advance_risk(state: Progress, k: int, error: WalkErrorView)
    requires
        state.failure is None,
    ensures
        match advance(state, k).failure {
            None => at_risk(advance(state, k), error) <==> at_risk(state, error),
            Some(raised) => at_risk(state, raised),
        },
{
    if 0 <= k < state.pending.len() {
        let current = state.pending[k];
        let others = state.pending.remove(k);
        let fresh = following(current);
        let next = advance(state, k);
        match outcome(current) {
            Err(raised) => {
                assert(leads(current, Seq::<int>::empty()));
                assert(raises(state.pending[k], raised));
            },
            Ok(step) => {
                lemma_raises_unfolds(current, error);
                assert(next.pending == others + fresh);
                if at_risk(state, error) {
                    let i = choose|i: int|
                        0 <= i < state.pending.len() && raises(state.pending[i], error);
                    if i < k {
                        assert(next.pending[i] == state.pending[i]);
                    } else if i > k {
                        assert(next.pending[i - 1] == state.pending[i]);
                    } else {
                        let j = choose|j: int| 0 <= j < fresh.len() && raises(fresh[j], error);
                        assert(next.pending[others.len() + j] == fresh[j]);
                    }
                    assert(at_risk(next, error));
                }
                if at_risk(next, error) {
                    let i = choose|i: int|
                        0 <= i < next.pending.len() && raises(next.pending[i], error);
                    if i < k {
                        assert(next.pending[i] == state.pending[i]);
                    } else if i < others.len() {
                        assert(next.pending[i] == state.pending[i + 1]);
                    } else {
                        let j = i - others.len();
                        assert(next.pending[i] == fresh[j]);
                        assert(raises(fresh[j], error));
                        assert(raises(current, error));
                    }
                    assert(at_risk(state, error));
                }
            },
        }
    }
}

/// As long as a walk has not failed, what it brings stays what it was at
/// the outset, whatever the order of completion.
proof fn lemma_run_keeps_store(state: Progress, schedule: Seq<int>, effect: Effect)
    requires
        state.failure is None,
        run(state, schedule).failure is None,
    ensures
        in_store(run(state, schedule), effect) <==> in_store(state, effect),
    decreases schedule.len(),
{
    if schedule.len() > 0 {
        let before = run(state, schedule.drop_last());
        lemma_run_keeps_store(state, schedule.drop_last(), effect);
        lemma_advance_keeps_store(before, schedule.last(), effect);
    }
}

/// No completion adds to what the walk brings, not even one that fails.
proof fn lemma_advance_adds_nothing(state: Progress, k: int, effect: Effect)
    requires
        in_store(advance(state, k), effect),
    ensures
        in_store(state, effect),
{
    if state.failure is None && 0 <= k < state.pending.len() {
        let next = advance(state, k);
        if next.failure is None {
            lemma_advance_keeps_store(state, k, effect);
        } else if !next.done.contains(effect) {
            let i = choose|i: int| 0 <= i < next.pending.len() && brings(next.pending[i], effect);
            if i < k {
                assert(next.pending[i] == state.pending[i]);
            } else {
                assert(next.pending[i] == state.pending[i + 1]);
            }
        }
    }
}

/// Whatever has completed, a walk has done and can still do no more than it
/// was to bring at the outset.
proof fn lemma_run_adds_nothing(state: Progress, schedule: Seq<int>, effect: Effect)
    requires
        in_store(run(state, schedule), effect),
    ensures
        in_store(state, effect),
    decreases schedule.len(),
{
    if schedule.len() > 0 {
        let before = run(state, schedule.drop_last());
        lemma_advance_adds_nothing(before, schedule.last(), effect);
        lemma_run_adds_nothing(state, schedule.drop_last(), effect);
    }
}

/// As long as a walk has not failed, the errors it can end in stay what
/// they were at the outset; once it has failed, it has failed with one of
/// those.
proof fn lemma_run_risk(state: Progress, schedule: Seq<int>, error: WalkErrorView)
    requires
        state.failure is None,
    ensures
        match run(state, schedule).failure {
            None => at_risk(run(state, schedule), error) <==> at_risk(state, error),
            Some(raised) => at_risk(state, raised),
        },
    decreases schedule.len(),
{
    if schedule.len() > 0 {
        let before = run(state, schedule.drop_last());
        lemma_run_risk(state, schedule.drop_last(), error);
        if before.failure is None {
            lemma_advance_risk(before, schedule.last(), error);
            if let Some(raised) = advance(before, schedule.last()).failure {
                lemma_run_risk(state, schedule.drop_last(), raised);
            }
        }
    }
}

/// The lookup that a walk begins with.
pub open spec fn first_lookup(path: Seq<char>, node: Remote) -> Pending {
    Pending { depth: Depth::Root, path, trail: Seq::empty(), node }
}

/// A walk that went through has put on local storage exactly what the
/// starting point and the nodes below it bring: nothing is left out and
/// nothing is added, whatever the order in which the lookups completed.
pub proof fn lemma_finished_walk_brings(
    path: Seq<char>,
    node: Remote,
    schedule: Seq<int>,
    effect: Effect,
)
    requires
        finished(run(begin(path, node), schedule)),
    ensures
        run(begin(path, node), schedule).done.contains(effect) <==> brings(
            first_lookup(path, node),
            effect,
        ),
{
    let state = begin(path, node);
    lemma_run_keeps_store(state, schedule, effect);
    assert(state.pending[0] == first_lookup(path, node));
}

/// At any moment of a walk, failed or not, whatever it has put on local
/// storage is something that the starting point or a node below it brings:
/// a walk that stops early leaves part of the tree behind and nothing else.
pub proof fn lemma_written_is_brought(
    path: Seq<char>,
    node: Remote,
    schedule: Seq<int>,
    effect: Effect,
)
    requires
        run(begin(path, node), schedule).done.contains(effect),
    ensures
        brings(first_lookup(path, node), effect),
{
    let state = begin(path, node);
    lemma_run_adds_nothing(state, schedule, effect);
    assert(state.pending[0] == first_lookup(path, node));
}

/// Where the starting point is refused, nothing is ever written.
pub proof fn lemma_refused_start_writes_nothing(path: Seq<char>, node: Remote, schedule: Seq<int>)
    requires
        outcome(first_lookup(path, node)) is Err,
    ensures
        run(begin(path, node), schedule).done.len() == 0,
{
    let first = first_lookup(path, node);
    let done = run(begin(path, node), schedule).done;
    if done.len() > 0 {
        let effect = done[0];
        lemma_written_is_brought(path, node, schedule, effect);
        let route = choose|route: Seq<int>| #[trigger]
            leads(first, route) && effect_at(reached(first, route)) == Some(effect);
        assert(route.len() == 0);
    }
}

/// The order in which the lookups complete never changes the set of files
/// and directories written: two walks of the same remote state to the same
/// place that both go through have written the same set.
pub proof fn lemma_order_of_completion(
    path: Seq<char>,
    node: Remote,
    first: Seq<int>,
    second: Seq<int>,
)
    requires
        finished(run(begin(path, node), first)),
        finished(run(begin(path, node), second)),
    ensures
        run(begin(path, node), first).done.to_set() == run(begin(path, node), second).done.to_set(),
{
    let one = run(begin(path, node), first).done;
    let other = run(begin(path, node), second).done;
    assert forall|effect: Effect| one.contains(effect) <==> other.contains(effect) by {
        lemma_finished_walk_brings(path, node, first, effect);
        lemma_finished_walk_brings(path, node, second, effect);
    }
    assert(one.to_set() =~= other.to_set());
}

/// A walk never reports success by mistake, and never fails without cause:
/// once it has come to its end, it has failed exactly if some lookup that
/// it gets to ends in an error, and the error it reports is one of those.
pub proof fn lemma_failure_is_raised(path: Seq<char>, node: Remote, schedule: Seq<int>)
    requires
        ended(run(begin(path, node), schedule)),
    ensures
        match run(begin(path, node), schedule).failure {
            Some(raised) => raises(first_lookup(path, node), raised),
            None => forall|error: WalkErrorView| !raises(first_lookup(path, node), error),
        },
{
    let state = begin(path, node);
    let last = run(state, schedule);
    assert(state.pending[0] == first_lookup(path, node));
    match last.failure {
        Some(raised) => {
            lemma_run_risk(state, schedule, raised);
        },
        None => {
            assert forall|error: WalkErrorView| !raises(first_lookup(path, node), error) by {
                lemma_run_risk(state, schedule, error);
                if raises(first_lookup(path, node), error) {
                    assert(raises(state.pending[0], error));
                    assert(at_risk(state, error));
                }
            }
        },
    }
}

/// Whether a lookup stands where the names that lead to it say: at the
/// path of the starting point joined with those names, one after another.
pub open spec fn well_placed(origin: Seq<char>, pending: Pending) -> bool {
    pending.path == path_under(origin, pending.trail) && (pending.depth == Depth::Root
        <==> pending.trail.len() == 0)
}

/// Completions keep every lookup in flight well placed.
proof fn lemma_run_well_placed(origin: Seq<char>, state: Progress, schedule: Seq<int>, i: int)
    requires
        forall|n: int| 0 <= n < state.pending.len() ==> well_placed(origin, #[trigger] state.pending[n]),
        0 <= i < run(state, schedule).pending.len(),
    ensures
        well_placed(origin, run(state, schedule).pending[i]),
    decreases schedule.len(),
{
    if schedule.len() > 0 {
        let before = run(state, schedule.drop_last());
        let k = schedule.last();
        let after = advance(before, k);
        assert forall|n: int| 0 <= n < before.pending.len() implies well_placed(
            origin,
            #[trigger] before.pending[n],
        ) by {
            lemma_run_well_placed(origin, state, schedule.drop_last(), n);
        }
        if before.failure is None && 0 <= k < before.pending.len() {
            let current = before.pending[k];
            let others = before.pending.remove(k);
            if i < k {
                assert(after.pending[i] == before.pending[i]);
            } else if i < others.len() {
                assert(after.pending[i] == before.pending[i + 1]);
            } else {
                let j = i - others.len();
                let step = outcome(current)->Ok_0;
                let name = entries_of(current.node)[j].name;
                assert(after.pending[i] == set_off(current, step)[j]);
                assert(after.pending[i].path == path_join(current.path, name));
                lemma_path_under_step(origin, current.trail, name);
            }
        }
    }
}

/// At every depth, a lookup goes to the local path of its parent joined
/// with the name of its entry: whatever has completed so far and in whatever
/// order, each lookup in flight stands at the path of the starting point
/// joined with the names of the entries that lead to it, and only the
/// starting point is taken for the root.
pub proof fn lemma_paths_follow_names(path: Seq<char>, node: Remote, schedule: Seq<int>, i: int)
    requires
        0 <= i < run(begin(path, node), schedule).pending.len(),
    ensures
        well_placed(path, run(begin(path, node), schedule).pending[i]),
{
    lemma_run_well_placed(path, begin(path, node), schedule, i);
}

/// A directory that holds files only, at least one of them without text,
/// never comes out as a success: a walk of it that has come to its end has
/// failed, and the error it reports is that binary content is unsupported.
/// Files with text may have been written by then.
pub proof fn lemma_binary_file_fails(
    path: Seq<char>,
    entries: Seq<RemoteEntry>,
    schedule: Seq<int>,
)
    requires
        forall|i: int| 0 <= i < entries.len() ==> (#[trigger] entries[i]).node is File,
        exists|i: int|
            0 <= i < entries.len() && (#[trigger] entries[i]).node == (Remote::File {
                content: None,
            }),
        ended(run(begin(path, Remote::Directory { entries }), schedule)),
    ensures
        run(begin(path, Remote::Directory { entries }), schedule).failure == Some(
            WalkErrorView::BinaryContentUnsupported,
        ),
{
    let node = Remote::Directory { entries };
    let first = first_lookup(path, node);
    let binary = choose|i: int|
        0 <= i < entries.len() && (#[trigger] entries[i]).node == (Remote::File { content: None });
    lemma_failure_is_raised(path, node, schedule);
    assert(following(first).len() == entries.len());
    assert(raises(first, WalkErrorView::BinaryContentUnsupported)) by {
        let route = seq![binary];
        assert(leads(following(first)[binary], route.skip(1)));
        assert(leads(first, route));
        assert(reached(following(first)[binary], route.skip(1)) == following(first)[binary]);
    }
    assert forall|error: WalkErrorView| raises(first, error) implies error
        == WalkErrorView::BinaryContentUnsupported by {
        let route = choose|route: Seq<int>| #[trigger]
            leads(first, route) && error_at(reached(first, route)) == Some(error);
        assert(route.len() > 0);
        let child = following(first)[route[0]];
        let rest = route.skip(1);
        assert(entries[route[0]].node is File);
        assert(following(child).len() == 0);
        assert(leads(child, rest));
        assert(reached(first, route) == reached(child, rest));
        assert(reached(child, rest) == child);
    }
}

/// What stands at one path of local storage.
pub enum Stored {
    File { content: Seq<char> },
    Directory,
}

/// The path that an effect is about.
pub open spec fn target(effect: Effect) -> Seq<char> {
    match effect {
        Effect::File { path, .. } => path,
        Effect::Directory { path } => path,
    }
}

/// What an effect leaves at its path.
pub open spec fn left(effect: Effect) -> Stored {
    match effect {
        Effect::File { content, .. } => Stored::File { content },
        Effect::Directory { .. } => Stored::Directory,
    }
}

/// Local storage after the effects have happened to it in their order. Each
/// replaces whatever stood at its path.
pub open spec fn put_all(disk: Map<Seq<char>, Stored>, effects: Seq<Effect>) -> Map<
    Seq<char>,
    Stored,
>
    decreases effects.len(),
{
    if effects.len() == 0 {
        disk
    } else {
        put_all(disk, effects.drop_last()).insert(target(effects.last()), left(effects.last()))
    }
}

/// Whether no two of the effects are about the same path.
pub open spec fn one_per_path(effects: Seq<Effect>) -> bool {
    forall|a: int, b: int|
        0 <= a < effects.len() && 0 <= b < effects.len() && target(#[trigger] effects[a])
            == target(#[trigger] effects[b]) ==> effects[a] == effects[b]
}

/// Whether one of the effects is about `path`.
pub open spec fn touches(effects: Seq<Effect>, path: Seq<char>) -> bool {
    exists|i: int| 0 <= i < effects.len() && target(#[trigger] effects[i]) == path
}

/// A path that effects are about holds what one of them left; any other
/// path is as it was.
proof fn lemma_put_all_at(disk: Map<Seq<char>, Stored>, effects: Seq<Effect>, path: Seq<char>)
    ensures
        touches(effects, path) ==> put_all(disk, effects).contains_key(path) && exists|i: int|
            0 <= i < effects.len() && target(#[trigger] effects[i]) == path && put_all(
                disk,
                effects,
            )[path] == left(effects[i]),
        !touches(effects, path) ==> (put_all(disk, effects).contains_key(path)
            <==> disk.contains_key(path)) && put_all(disk, effects)[path] == disk[path],
    decreases effects.len(),
{
    if effects.len() > 0 {
        let before = effects.drop_last();
        let last = effects.len() - 1;
        lemma_put_all_at(disk, before, path);
        if target(effects[last]) == path {
        } else if touches(before, path) {
            let i = choose|i: int|
                0 <= i < before.len() && target(#[trigger] before[i]) == path && put_all(
                    disk,
                    before,
                )[path] == left(before[i]);
            assert(effects[i] == before[i]);
        } else {
            if touches(effects, path) {
                let i = choose|i: int|
                    0 <= i < effects.len() && target(#[trigger] effects[i]) == path;
                assert(before[i] == effects[i]);
            }
        }
    }
}

/// Walking twice leaves the same set of paths: after a walk that went
/// through, a second walk of the same remote state to the same place adds
/// no path to local storage and takes none away, whatever the order in
/// which the lookups of either complete.
pub proof fn lemma_second_walk_same_paths(
    path: Seq<char>,
    node: Remote,
    first: Seq<int>,
    second: Seq<int>,
    disk: Map<Seq<char>, Stored>,
)
    requires
        finished(run(begin(path, node), first)),
        finished(run(begin(path, node), second)),
    ensures
        put_all(
            put_all(disk, run(begin(path, node), first).done),
            run(begin(path, node), second).done,
        ).dom() == put_all(disk, run(begin(path, node), first).done).dom(),
{
    let one = run(begin(path, node), first).done;
    let other = run(begin(path, node), second).done;
    let once = put_all(disk, one);
    let twice = put_all(once, other);
    assert forall|at: Seq<char>| twice.contains_key(at) <==> once.contains_key(at) by {
        lemma_put_all_at(once, other, at);
        lemma_put_all_at(disk, one, at);
        if touches(other, at) {
            let i = choose|i: int| 0 <= i < other.len() && target(#[trigger] other[i]) == at;
            lemma_finished_walk_brings(path, node, first, other[i]);
            lemma_finished_walk_brings(path, node, second, other[i]);
            let n = choose|n: int| 0 <= n < one.len() && one[n] == other[i];
            assert(target(one[n]) == at);
        }
    }
    assert(twice.dom() =~= once.dom());
}

/// Walking twice leaves the same content: where no two writes of the walk
/// go to one path, a second walk of the same remote state to the same place
/// leaves local storage exactly as the first left it, whatever the order in
/// which the lookups of either complete.
pub proof fn lemma_second_walk_same_content(
    path: Seq<char>,
    node: Remote,
    first: Seq<int>,
    second: Seq<int>,
    disk: Map<Seq<char>, Stored>,
)
    requires
        finished(run(begin(path, node), first)),
        finished(run(begin(path, node), second)),
        one_per_path(run(begin(path, node), first).done),
    ensures
        put_all(
            put_all(disk, run(begin(path, node), first).done),
            run(begin(path, node), second).done,
        ) == put_all(disk, run(begin(path, node), first).done),
{
    let one = run(begin(path, node), first).done;
    let other = run(begin(path, node), second).done;
    let once = put_all(disk, one);
    let twice = put_all(once, other);
    lemma_second_walk_same_paths(path, node, first, second, disk);
    assert forall|at: Seq<char>| twice.contains_key(at) implies twice[at] == once[at] by {
        lemma_put_all_at(once, other, at);
        lemma_put_all_at(disk, one, at);
        if touches(other, at) {
            let i = choose|i: int|
                0 <= i < other.len() && target(#[trigger] other[i]) == at && twice[at] == left(
                    other[i],
                );
            lemma_finished_walk_brings(path, node, first, other[i]);
            lemma_finished_walk_brings(path, node, second, other[i]);
            let n = choose|n: int| 0 <= n < one.len() && one[n] == other[i];
            assert(target(one[n]) == at);
            let m = choose|m: int|
                0 <= m < one.len() && target(#[trigger] one[m]) == at && once[at] == left(one[m]);
            assert(one[m] == one[n]);
        }
    }
    assert(twice =~= once);
}

} // verus!
