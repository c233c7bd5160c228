//! A whole walk, reasoned about with the directory tree given as a function
//! from the path of a directory to its entries.
//!
//! The walker is driven in rounds: a round takes the batch, answers each of
//! its tasks, and records the answers in the order of the tasks. Here every
//! task succeeds. What is shown is that such a walk ends, whatever links
//! the tree holds, as long as its directories are finitely many; that it
//! lists no directory twice; and that it hands out no more tasks than it
//! began with and met entries. For a tree without links it is shown that
//! every directory is listed and every candidate file converted, at whatever
//! depth they lie, and for any tree that nothing else is converted.

use crate::format::ImageFormat;
use crate::walk::{
    after_all, lemma_every_candidate_is_queued, lemma_listing, lemma_listings_push,
    lemma_prefix_contains, listings, EntryKind, EntryView, EventView, TaskView, WalkerView,
};
use vstd::prelude::*;
use vstd::set_lib::lemma_len_subset;

verus! {

/// The entries that `tree` holds for the directory at `path`.
pub open spec fn entries_of(tree: spec_fn(Seq<char>) -> Seq<EntryView>, path: Seq<char>) -> Seq<
    EntryView,
> {
    tree(path)
}

/// What comes of `task` when nothing fails: the entries that `tree` holds
/// for a directory, or the output path of a conversion.
pub open spec fn response(tree: spec_fn(Seq<char>) -> Seq<EntryView>, task: TaskView) -> EventView {
    match task {
        TaskView::ReadDirectory(directory) => EventView::Listed(entries_of(tree, directory)),
        TaskView::Convert(request) => EventView::Converted(Ok(request.output_path())),
    }
}

/// What comes of each task of `batch`, in the order of the tasks.
pub open spec fn responses(
    tree: spec_fn(Seq<char>) -> Seq<EntryView>,
    batch: Seq<TaskView>,
) -> Seq<EventView> {
    batch.map_values(|task: TaskView| response(tree, task))
}

/// The state after one round: the batch was taken, and what came of each
/// of its tasks was recorded.
pub open spec fn round(
    tree: spec_fn(Seq<char>) -> Seq<EntryView>,
    state: WalkerView,
) -> WalkerView {
    after_all(state.drained(), responses(tree, state.batch()))
}

/// The state after `rounds` rounds.
pub open spec fn run(
    tree: spec_fn(Seq<char>) -> Seq<EntryView>,
    state: WalkerView,
    rounds: nat,
) -> WalkerView
    decreases rounds,
{
    if rounds == 0 {
        state
    } else {
        run(tree, round(tree, state), (rounds - 1) as nat)
    }
}

/// How many entries the directories hold that `tasks` list.
pub open spec fn listed_entries(
    tree: spec_fn(Seq<char>) -> Seq<EntryView>,
    tasks: Seq<TaskView>,
) -> nat
    decreases tasks.len(),
{
    if tasks.len() == 0 {
        0
    } else {
        listed_entries(tree, tasks.drop_last()) + match tasks.last() {
            TaskView::ReadDirectory(directory) => entries_of(tree, directory).len(),
            TaskView::Convert(_) => 0,
        }
    }
}

/// How many tasks are handed out in `rounds` rounds.
pub open spec fn handed_out(
    tree: spec_fn(Seq<char>) -> Seq<EntryView>,
    state: WalkerView,
    rounds: nat,
) -> nat
    decreases rounds,
{
    if rounds == 0 {
        0
    } else {
        state.batch().len() + handed_out(tree, round(tree, state), (rounds - 1) as nat)
    }
}

/// How many directories are listed in `rounds` rounds.
pub open spec fn listings_made(
    tree: spec_fn(Seq<char>) -> Seq<EntryView>,
    state: WalkerView,
    rounds: nat,
) -> nat
    decreases rounds,
{
    if rounds == 0 {
        0
    } else {
        listings(state.batch()) + listings_made(tree, round(tree, state), (rounds - 1) as nat)
    }
}

/// How many entries are met in `rounds` rounds: those of the directories
/// that are listed.
pub open spec fn entries_met(
    tree: spec_fn(Seq<char>) -> Seq<EntryView>,
    state: WalkerView,
    rounds: nat,
) -> nat
    decreases rounds,
{
    if rounds == 0 {
        0
    } else {
        listed_entries(tree, state.batch()) + entries_met(
            tree,
            round(tree, state),
            (rounds - 1) as nat,
        )
    }
}

/// Whether `directories` holds the identity of every directory that is an
/// entry anywhere in `tree`.
pub open spec fn holds_every_directory(
    tree: spec_fn(Seq<char>) -> Seq<EntryView>,
    directories: Set<Seq<char>>,
) -> bool {
    forall|path: Seq<char>, i: int|
        0 <= i < entries_of(tree, path).len() && (#[trigger] entries_of(
            tree,
            path,
        )[i]).is_directory ==> directories.contains(entries_of(tree, path)[i].identity)
}

/// Whether a walk in `state` stays within `directories`: the identities it
/// has met are all different and all among `directories`, and so are those
/// it can still meet in `tree`.
pub open spec fn stays_within(
    tree: spec_fn(Seq<char>) -> Seq<EntryView>,
    state: WalkerView,
    directories: Set<Seq<char>>,
) -> bool {
    &&& directories.finite()
    &&& state.visited.no_duplicates()
    &&& forall|i: int| 0 <= i < state.visited.len() ==> directories.contains(#[trigger] state.visited[i])
    &&& holds_every_directory(tree, directories)
}

/// Identities that are all different and all among finitely many
/// directories are no more than these.
pub proof fn lemma_visited_fits(visited: Seq<Seq<char>>, directories: Set<Seq<char>>)
    requires
        directories.finite(),
        visited.no_duplicates(),
        forall|i: int| 0 <= i < visited.len() ==> directories.contains(#[trigger] visited[i]),
    ensures
        visited.len() <= directories.len(),
{
    visited.unique_seq_to_set();
    assert(visited.to_set().subset_of(directories));
    lemma_len_subset(visited.to_set(), directories);
}

/// What the answers to a batch do to the walk. No failure comes of them
/// and the settings stay. The queue grows by no more than the entries that
/// the batch lists, and by as many listings as identities are met anew.
/// Identities that were all different stay so, and none is met but that of
/// a directory that is an entry in the tree.
pub proof fn lemma_answers(
    tree: spec_fn(Seq<char>) -> Seq<EntryView>,
    state: WalkerView,
    batch: Seq<TaskView>,
    directories: Set<Seq<char>>,
)
    requires
        state.failure is None,
    ensures
        after_all(state, responses(tree, batch)).failure is None,
        after_all(state, responses(tree, batch)).output_directory == state.output_directory,
        after_all(state, responses(tree, batch)).target_format == state.target_format,
        after_all(state, responses(tree, batch)).queue.len() <= state.queue.len() + listed_entries(
            tree,
            batch,
        ),
        state.visited.len() <= after_all(state, responses(tree, batch)).visited.len(),
        listings(after_all(state, responses(tree, batch)).queue) - listings(state.queue)
            == after_all(state, responses(tree, batch)).visited.len() - state.visited.len(),
        stays_within(tree, state, directories) ==> stays_within(
            tree,
            after_all(state, responses(tree, batch)),
            directories,
        ),
    decreases batch.len(),
{
    let events = responses(tree, batch);
    if batch.len() > 0 {
        lemma_answers(tree, state, batch.drop_last(), directories);
        assert(events.drop_last() =~= responses(tree, batch.drop_last()));
        let before = after_all(state, events.drop_last());
        let next = before.after(events.last());
        match batch.last() {
            TaskView::ReadDirectory(directory) => {
                let entries = entries_of(tree, directory);
                lemma_listing(before, entries);
                if stays_within(tree, state, directories) {
                    assert forall|i: int| 0 <= i < next.visited.len() implies directories.contains(
                        #[trigger] next.visited[i],
                    ) by {
                        assert(next.visited.contains(next.visited[i]));
                    }
                }
            },
            TaskView::Convert(_) => {},
        }
    }
}

/// Tasks among which there is no listing are answered without anything
/// being queued.
pub proof fn lemma_conversions_queue_nothing(
    tree: spec_fn(Seq<char>) -> Seq<EntryView>,
    state: WalkerView,
    batch: Seq<TaskView>,
)
    requires
        state.failure is None,
        listings(batch) == 0,
    ensures
        after_all(state, responses(tree, batch)) == state,
    decreases batch.len(),
{
    let events = responses(tree, batch);
    if batch.len() > 0 {
        lemma_conversions_queue_nothing(tree, state, batch.drop_last());
        assert(events.drop_last() =~= responses(tree, batch.drop_last()));
    }
}

/// A walk that is over stays as it is, however many rounds follow.
pub proof fn lemma_over_is_over(
    tree: spec_fn(Seq<char>) -> Seq<EntryView>,
    state: WalkerView,
    rounds: nat,
)
    requires
        state.failure is None,
        state.queue.len() == 0,
    ensures
        run(tree, state, rounds) == state,
    decreases rounds,
{
    if rounds > 0 {
        assert(state.queue =~= Seq::<TaskView>::empty());
        lemma_over_is_over(tree, state, (rounds - 1) as nat);
    }
}

/// Rounds can be counted in two parts.
pub proof fn lemma_run_in_two_parts(
    tree: spec_fn(Seq<char>) -> Seq<EntryView>,
    state: WalkerView,
    first: nat,
    second: nat,
)
    ensures
        run(tree, state, first + second) == run(tree, run(tree, state, first), second),
    decreases first,
{
    if first > 0 {
        lemma_run_in_two_parts(tree, round(tree, state), (first - 1) as nat, second);
    }
}

/// A walk ends, even where links lead back into the tree. Where the
/// directories are finitely many and nothing fails, the walk is over after
/// two rounds more than there are directories it has not met: nothing is
/// queued then and nothing has failed.
pub proof fn lemma_walk_ends(
    tree: spec_fn(Seq<char>) -> Seq<EntryView>,
    state: WalkerView,
    directories: Set<Seq<char>>,
)
    requires
        state.failure is None,
        stays_within(tree, state, directories),
    ensures
        state.visited.len() <= directories.len(),
        run(tree, state, (directories.len() - state.visited.len() + 2) as nat).queue.len() == 0,
        run(tree, state, (directories.len() - state.visited.len() + 2) as nat).failure is None,
        run(tree, state, (directories.len() - state.visited.len() + 2) as nat).finished(),
    decreases directories.len() - state.visited.len(),
{
    lemma_visited_fits(state.visited, directories);
    let unmet = (directories.len() - state.visited.len()) as nat;
    let next = round(tree, state);
    lemma_answers(tree, state.drained(), state.batch(), directories);
    lemma_visited_fits(next.visited, directories);
    if next.visited.len() == state.visited.len() {
        let last = round(tree, next);
        lemma_conversions_queue_nothing(tree, next.drained(), next.batch());
        lemma_over_is_over(tree, last, unmet);
    } else {
        let left = (directories.len() - next.visited.len()) as nat;
        lemma_walk_ends(tree, next, directories);
        let over = run(tree, next, left + 2);
        lemma_run_in_two_parts(tree, next, left + 2, (unmet - left - 1) as nat);
        lemma_over_is_over(tree, over, (unmet - left - 1) as nat);
        assert(run(tree, state, unmet + 2) == run(tree, next, unmet + 1));
    }
}

/// A walk lists no directory twice and does work that grows with the size
/// of the tree, not faster. In any number of rounds without a failure, no
/// more directories are listed than were queued at the beginning and had
/// not been met, and no more tasks are handed out than were queued at the
/// beginning and entries were met.
pub proof fn lemma_walk_is_linear(
    tree: spec_fn(Seq<char>) -> Seq<EntryView>,
    state: WalkerView,
    directories: Set<Seq<char>>,
    rounds: nat,
)
    requires
        state.failure is None,
        stays_within(tree, state, directories),
    ensures
        listings_made(tree, state, rounds) <= listings(state.queue) + directories.len()
            - state.visited.len(),
        handed_out(tree, state, rounds) <= state.queue.len() + entries_met(tree, state, rounds),
    decreases rounds,
{
    lemma_visited_fits(state.visited, directories);
    if rounds > 0 {
        let next = round(tree, state);
        lemma_answers(tree, state.drained(), state.batch(), directories);
        lemma_walk_is_linear(tree, next, directories, (rounds - 1) as nat);
    }
}

/// The walk of a root directory, when nothing fails, is over after one
/// round more than there are directories, however they are linked. It lists
/// no more directories than there are, and hands out no more tasks than one
/// for the root and one for each entry it meets.
pub proof fn lemma_walk_from_root(
    tree: spec_fn(Seq<char>) -> Seq<EntryView>,
    root: EntryView,
    output_directory: Option<Seq<char>>,
    format: ImageFormat,
    directories: Set<Seq<char>>,
)
    requires
        root.is_directory,
        directories.finite(),
        directories.contains(root.identity),
        holds_every_directory(tree, directories),
    ensures
        ({
            let start = WalkerView::initial(root, output_directory, format);
            let rounds = directories.len() + 1;
            &&& run(tree, start, rounds).finished()
            &&& run(tree, start, rounds).failure is None
            &&& listings_made(tree, start, rounds) <= directories.len()
            &&& handed_out(tree, start, rounds) <= 1 + entries_met(tree, start, rounds)
        }),
{
    let start = WalkerView::initial(root, output_directory, format);
    lemma_listings_push(Seq::empty(), TaskView::ReadDirectory(root.path));
    assert(start.queue =~= Seq::<TaskView>::empty().push(TaskView::ReadDirectory(root.path)));
    lemma_walk_ends(tree, start, directories);
    lemma_walk_is_linear(tree, start, directories, directories.len() + 1);
}

/// A directory of files that are all candidates, walked without a failure:
/// the first round lists the directory, the second hands out one conversion
/// for each file, and with that the walk is over, with success.
pub proof fn lemma_flat_directory(
    tree: spec_fn(Seq<char>) -> Seq<EntryView>,
    root: EntryView,
    output_directory: Option<Seq<char>>,
    format: ImageFormat,
)
    requires
        root.is_directory,
        forall|i: int|
            0 <= i < entries_of(tree, root.path).len() ==> (#[trigger] entries_of(
                tree,
                root.path,
            )[i]).kind(format) == EntryKind::CandidateFile,
    ensures
        ({
            let start = WalkerView::initial(root, output_directory, format);
            let listed = round(tree, start);
            let converted = round(tree, listed);
            let files = entries_of(tree, root.path);
            &&& start.batch() == seq![TaskView::ReadDirectory(root.path)]
            &&& listed.batch() == files.map_values(|file: EntryView| start.conversion_of(file))
            &&& converted.finished()
            &&& converted.failure is None
            &&& handed_out(tree, start, 2) == 1 + files.len()
        }),
{
    let start = WalkerView::initial(root, output_directory, format);
    let listed = round(tree, start);
    let converted = round(tree, listed);
    let files = entries_of(tree, root.path);
    let conversions = files.map_values(|file: EntryView| start.conversion_of(file));
    let answers = responses(tree, start.batch());
    assert(after_all(start.drained(), answers.drop_last()) == start.drained());
    lemma_every_candidate_is_queued(start.drained(), files);
    assert(listed.queue =~= conversions);
    lemma_only_conversions(conversions);
    lemma_conversions_queue_nothing(tree, listed.drained(), listed.batch());
    assert(handed_out(tree, converted, 0) == 0);
    assert(handed_out(tree, listed, 1) == conversions.len());
}

/// Among conversions there is no listing.
pub proof fn lemma_only_conversions(tasks: Seq<TaskView>)
    requires
        forall|i: int| 0 <= i < tasks.len() ==> (#[trigger] tasks[i]) is Convert,
    ensures
        listings(tasks) == 0,
    decreases tasks.len(),
{
    if tasks.len() > 0 {
        lemma_only_conversions(tasks.drop_last());
    }
}

/// The identity that `identity_of` gives to the directory at `path`.
pub open spec fn identity_at(identity_of: spec_fn(Seq<char>) -> Seq<char>, path: Seq<char>) -> Seq<
    char,
> {
    identity_of(path)
}

/// Whether the tree is free of links: every directory, the root too, has
/// the identity that `identity_of` gives to its path, and no two paths have
/// one identity.
pub open spec fn has_no_links(
    tree: spec_fn(Seq<char>) -> Seq<EntryView>,
    root: EntryView,
    identity_of: spec_fn(Seq<char>) -> Seq<char>,
) -> bool {
    &&& forall|first: Seq<char>, second: Seq<char>|
        #![trigger identity_at(identity_of, first), identity_at(identity_of, second)]
        identity_at(identity_of, first) == identity_at(identity_of, second) ==> first == second
    &&& root.identity == identity_at(identity_of, root.path)
    &&& forall|path: Seq<char>, i: int|
        0 <= i < entries_of(tree, path).len() && (#[trigger] entries_of(
            tree,
            path,
        )[i]).is_directory ==> entries_of(tree, path)[i].identity == identity_at(
            identity_of,
            entries_of(tree, path)[i].path,
        )
}

/// Whether the directory at `directory` holds a directory at `path`.
pub open spec fn holds_directory(
    tree: spec_fn(Seq<char>) -> Seq<EntryView>,
    directory: Seq<char>,
    path: Seq<char>,
) -> bool {
    exists|i: int|
        0 <= i < entries_of(tree, directory).len() && (#[trigger] entries_of(
            tree,
            directory,
        )[i]).is_directory && entries_of(tree, directory)[i].path == path
}

/// Whether `chain` leads from the root down into the tree: it begins with
/// the path of the root, and each of its paths is that of a directory held
/// by the directory before.
pub open spec fn leads_down(
    tree: spec_fn(Seq<char>) -> Seq<EntryView>,
    root: Seq<char>,
    chain: Seq<Seq<char>>,
) -> bool
    decreases chain.len(),
{
    if chain.len() == 0 {
        false
    } else if chain.len() == 1 {
        chain[0] == root
    } else {
        leads_down(tree, root, chain.drop_last()) && holds_directory(
            tree,
            chain.drop_last().last(),
            chain.last(),
        )
    }
}

/// Whether `task` is handed out in one of the first `rounds` rounds of the
/// walk that begins in `start`, or waits after them.
pub open spec fn is_handed_out(
    tree: spec_fn(Seq<char>) -> Seq<EntryView>,
    start: WalkerView,
    rounds: nat,
    task: TaskView,
) -> bool {
    exists|round: nat| round <= rounds && (#[trigger] run(tree, start, round)).batch().contains(task)
}

/// Whether every identity met in the first `rounds` rounds is that of a
/// path whose listing is handed out in them, or waits after them.
pub open spec fn met_is_listed(
    tree: spec_fn(Seq<char>) -> Seq<EntryView>,
    start: WalkerView,
    rounds: nat,
    identity_of: spec_fn(Seq<char>) -> Seq<char>,
) -> bool {
    forall|identity: Seq<char>| #[trigger]
        run(tree, start, rounds).visited.contains(identity) ==> exists|path: Seq<char>|
            identity_at(identity_of, path) == identity && #[trigger] is_handed_out(
                tree,
                start,
                rounds,
                TaskView::ReadDirectory(path),
            )
}

/// One round more is a round after the rounds before.
pub proof fn lemma_one_more_round(
    tree: spec_fn(Seq<char>) -> Seq<EntryView>,
    state: WalkerView,
    rounds: nat,
)
    ensures
        run(tree, state, rounds + 1) == round(tree, run(tree, state, rounds)),
{
    lemma_run_in_two_parts(tree, state, rounds, 1);
    let reached = run(tree, state, rounds);
    assert(run(tree, reached, 1) == run(tree, round(tree, reached), 0));
}

/// What begins a sequence that begins another, begins that one too.
pub proof fn lemma_prefix_of_prefix<T>(first: Seq<T>, second: Seq<T>, third: Seq<T>)
    requires
        first.is_prefix_of(second),
        second.is_prefix_of(third),
    ensures
        first.is_prefix_of(third),
{
    assert(first =~= third.subrange(0, first.len() as int));
}

/// What the answers to a batch keep and add. What was queued stays queued
/// and what was met stays met. In a tree without links, an identity that is
/// met anew is that of a path whose listing is queued.
pub proof fn lemma_answers_keep(
    tree: spec_fn(Seq<char>) -> Seq<EntryView>,
    state: WalkerView,
    batch: Seq<TaskView>,
    root: EntryView,
    identity_of: spec_fn(Seq<char>) -> Seq<char>,
)
    requires
        state.failure is None,
    ensures
        state.queue.is_prefix_of(after_all(state, responses(tree, batch)).queue),
        state.visited.is_prefix_of(after_all(state, responses(tree, batch)).visited),
        has_no_links(tree, root, identity_of) ==> forall|identity: Seq<char>| #[trigger]
            after_all(state, responses(tree, batch)).visited.contains(identity)
                ==> state.visited.contains(identity) || exists|path: Seq<char>|
                #![trigger identity_at(identity_of, path)]
                identity_at(identity_of, path) == identity && after_all(
                    state,
                    responses(tree, batch),
                ).queue.contains(TaskView::ReadDirectory(path)),
    decreases batch.len(),
{
    let events = responses(tree, batch);
    let last = after_all(state, events);
    if batch.len() > 0 {
        lemma_answers_keep(tree, state, batch.drop_last(), root, identity_of);
        lemma_answers(tree, state, batch.drop_last(), Set::empty());
        assert(events.drop_last() =~= responses(tree, batch.drop_last()));
        let before = after_all(state, events.drop_last());
        match batch.last() {
            TaskView::ReadDirectory(directory) => {
                let entries = entries_of(tree, directory);
                lemma_listing(before, entries);
                assert(last == before.with_entries(entries));
            },
            TaskView::Convert(_) => {
                assert(last == before);
            },
        }
        lemma_prefix_of_prefix(state.queue, before.queue, last.queue);
        lemma_prefix_of_prefix(state.visited, before.visited, last.visited);
        if has_no_links(tree, root, identity_of) {
            assert forall|identity: Seq<char>| #[trigger]
                last.visited.contains(identity) implies state.visited.contains(identity)
                || exists|path: Seq<char>|
                #![trigger identity_at(identity_of, path)]
                identity_at(identity_of, path) == identity && last.queue.contains(
                    TaskView::ReadDirectory(path),
                ) by {
                if before.visited.contains(identity) {
                    if !state.visited.contains(identity) {
                        let path = choose|path: Seq<char>|
                            #![trigger identity_at(identity_of, path)]
                            identity_at(identity_of, path) == identity && before.queue.contains(
                                TaskView::ReadDirectory(path),
                            );
                        lemma_prefix_contains(
                            before.queue,
                            last.queue,
                            TaskView::ReadDirectory(path),
                        );
                    }
                } else {
                    let directory = batch.last()->ReadDirectory_0;
                    let entries = entries_of(tree, directory);
                    let i = choose|i: int|
                        0 <= i < entries.len() && (#[trigger] entries[i]).is_directory
                            && entries[i].identity == identity && last.queue.contains(
                            TaskView::ReadDirectory(entries[i].path),
                        );
                    assert(entries_of(tree, directory)[i].is_directory);
                    assert(identity_at(identity_of, entries[i].path) == identity);
                }
            }
        }
    }
}

/// A directory that is listed in a round has its entries looked at in that
/// round: each candidate file among them is queued for conversion, and each
/// directory among them is met.
pub proof fn lemma_listed_is_looked_at(
    tree: spec_fn(Seq<char>) -> Seq<EntryView>,
    state: WalkerView,
    batch: Seq<TaskView>,
    directory: Seq<char>,
)
    requires
        state.failure is None,
        batch.contains(TaskView::ReadDirectory(directory)),
    ensures
        forall|i: int|
            0 <= i < entries_of(tree, directory).len() && (#[trigger] entries_of(
                tree,
                directory,
            )[i]).kind(state.target_format) == EntryKind::CandidateFile ==> after_all(
                state,
                responses(tree, batch),
            ).queue.contains(state.conversion_of(entries_of(tree, directory)[i])),
        forall|i: int|
            0 <= i < entries_of(tree, directory).len() && (#[trigger] entries_of(
                tree,
                directory,
            )[i]).is_directory ==> after_all(state, responses(tree, batch)).visited.contains(
                entries_of(tree, directory)[i].identity,
            ),
    decreases batch.len(),
{
    let events = responses(tree, batch);
    let last = after_all(state, events);
    let entries = entries_of(tree, directory);
    let task = TaskView::ReadDirectory(directory);
    let at = choose|at: int| 0 <= at < batch.len() && batch[at] == task;
    assert(events.drop_last() =~= responses(tree, batch.drop_last()));
    let before = after_all(state, events.drop_last());
    lemma_answers(tree, state, batch.drop_last(), Set::empty());
    assert(last == before.after(response(tree, batch.last())));
    if at == batch.len() - 1 {
        lemma_listing(before, entries);
    } else {
        match batch.last() {
            TaskView::ReadDirectory(other) => {
                lemma_listing(before, entries_of(tree, other));
            },
            TaskView::Convert(_) => {},
        }
        assert(batch.drop_last()[at] == task);
        lemma_listed_is_looked_at(tree, state, batch.drop_last(), directory);
        assert forall|i: int|
            0 <= i < entries.len() && (#[trigger] entries[i]).kind(state.target_format)
                == EntryKind::CandidateFile implies last.queue.contains(
            state.conversion_of(entries[i]),
        ) by {
            lemma_prefix_contains(before.queue, last.queue, state.conversion_of(entries[i]));
        }
        assert forall|i: int|
            0 <= i < entries.len() && (#[trigger] entries[i]).is_directory
                implies last.visited.contains(entries[i].identity) by {
            lemma_prefix_contains(before.visited, last.visited, entries[i].identity);
        }
    }
}

/// In a tree without links the walk keeps track: as long as nothing fails,
/// the settings stay, and every identity met is that of a path whose listing
/// was handed out or waits.
pub proof fn lemma_walk_keeps_track(
    tree: spec_fn(Seq<char>) -> Seq<EntryView>,
    root: EntryView,
    output_directory: Option<Seq<char>>,
    format: ImageFormat,
    identity_of: spec_fn(Seq<char>) -> Seq<char>,
    rounds: nat,
)
    requires
        root.is_directory,
        has_no_links(tree, root, identity_of),
    ensures
        ({
            let start = WalkerView::initial(root, output_directory, format);
            &&& run(tree, start, rounds).failure is None
            &&& run(tree, start, rounds).output_directory == output_directory
            &&& run(tree, start, rounds).target_format == format
            &&& met_is_listed(tree, start, rounds, identity_of)
        }),
    decreases rounds,
{
    let start = WalkerView::initial(root, output_directory, format);
    let reached = run(tree, start, rounds);
    if rounds == 0 {
        assert forall|identity: Seq<char>| #[trigger]
            reached.visited.contains(identity) implies exists|path: Seq<char>|
            identity_at(identity_of, path) == identity && #[trigger] is_handed_out(
                tree,
                start,
                rounds,
                TaskView::ReadDirectory(path),
            ) by {
            let at = choose|at: int| 0 <= at < start.visited.len() && start.visited[at] == identity;
            assert(start.visited[at] == root.identity);
            assert(identity_at(identity_of, root.path) == identity);
            assert(start.batch()[0] == TaskView::ReadDirectory(root.path));
            assert(is_handed_out(tree, start, rounds, TaskView::ReadDirectory(root.path)));
        }
    } else {
        let earlier = (rounds - 1) as nat;
        let before = run(tree, start, earlier);
        lemma_walk_keeps_track(tree, root, output_directory, format, identity_of, earlier);
        lemma_one_more_round(tree, start, earlier);
        lemma_answers(tree, before.drained(), before.batch(), Set::empty());
        lemma_answers_keep(tree, before.drained(), before.batch(), root, identity_of);
        assert forall|identity: Seq<char>| #[trigger]
            reached.visited.contains(identity) implies exists|path: Seq<char>|
            identity_at(identity_of, path) == identity && #[trigger] is_handed_out(
                tree,
                start,
                rounds,
                TaskView::ReadDirectory(path),
            ) by {
            if before.visited.contains(identity) {
                let path = choose|path: Seq<char>|
                    identity_at(identity_of, path) == identity && #[trigger] is_handed_out(
                        tree,
                        start,
                        earlier,
                        TaskView::ReadDirectory(path),
                    );
                let task = TaskView::ReadDirectory(path);
                let round = choose|round: nat|
                    round <= earlier && (#[trigger] run(tree, start, round)).batch().contains(task);
                assert(round <= rounds && run(tree, start, round).batch().contains(task));
                assert(is_handed_out(tree, start, rounds, task));
            } else {
                let answered = after_all(before.drained(), responses(tree, before.batch()));
                assert(answered == reached);
                assert(answered.visited.contains(identity));
                assert(!before.drained().visited.contains(identity));
                let path = choose|path: Seq<char>|
                    #![trigger identity_at(identity_of, path)]
                    identity_at(identity_of, path) == identity && answered.queue.contains(
                        TaskView::ReadDirectory(path),
                    );
                assert(run(tree, start, rounds).batch().contains(TaskView::ReadDirectory(path)));
                assert(is_handed_out(tree, start, rounds, TaskView::ReadDirectory(path)));
            }
        }
    }
}

/// In a tree without links every directory is listed, however deep it
/// lies: the listing of the directory that a chain of directories leads
/// down to is handed out in one of as many rounds as the chain is long.
pub proof fn lemma_every_directory_is_listed(
    tree: spec_fn(Seq<char>) -> Seq<EntryView>,
    root: EntryView,
    output_directory: Option<Seq<char>>,
    format: ImageFormat,
    identity_of: spec_fn(Seq<char>) -> Seq<char>,
    chain: Seq<Seq<char>>,
)
    requires
        root.is_directory,
        has_no_links(tree, root, identity_of),
        leads_down(tree, root.path, chain),
    ensures
        is_handed_out(
            tree,
            WalkerView::initial(root, output_directory, format),
            (chain.len() - 1) as nat,
            TaskView::ReadDirectory(chain.last()),
        ),
    decreases chain.len(),
{
    let start = WalkerView::initial(root, output_directory, format);
    let rounds = (chain.len() - 1) as nat;
    if chain.len() == 1 {
        assert(start.batch()[0] == TaskView::ReadDirectory(root.path));
        assert(run(tree, start, 0).batch().contains(TaskView::ReadDirectory(chain.last())));
    } else {
        let above = chain.drop_last();
        let parent = above.last();
        lemma_every_directory_is_listed(tree, root, output_directory, format, identity_of, above);
        let listing = TaskView::ReadDirectory(parent);
        let round = choose|round: nat|
            round <= above.len() - 1 && (#[trigger] run(tree, start, round)).batch().contains(
                listing,
            );
        let before = run(tree, start, round);
        let reached = run(tree, start, round + 1);
        lemma_walk_keeps_track(tree, root, output_directory, format, identity_of, round);
        lemma_walk_keeps_track(tree, root, output_directory, format, identity_of, round + 1);
        lemma_one_more_round(tree, start, round);
        lemma_listed_is_looked_at(tree, before.drained(), before.batch(), parent);
        let i = choose|i: int|
            0 <= i < entries_of(tree, parent).len() && (#[trigger] entries_of(
                tree,
                parent,
            )[i]).is_directory && entries_of(tree, parent)[i].path == chain.last();
        let entry = entries_of(tree, parent)[i];
        assert(reached.visited.contains(entry.identity));
        let path = choose|path: Seq<char>|
            identity_at(identity_of, path) == entry.identity && #[trigger] is_handed_out(
                tree,
                start,
                round + 1,
                TaskView::ReadDirectory(path),
            );
        assert(identity_at(identity_of, entry.path) == entry.identity);
        assert(path == chain.last());
        let task = TaskView::ReadDirectory(path);
        let found = choose|found: nat|
            found <= round + 1 && (#[trigger] run(tree, start, found)).batch().contains(task);
        assert(found <= rounds && run(tree, start, found).batch().contains(task));
    }
}

/// In a tree without links every candidate file is converted, at whatever
/// depth it lies: where a chain of directories leads down to the directory
/// that holds it, its conversion is handed out in one of the rounds up to
/// the one after the length of the chain, as long as nothing fails. It is
/// the conversion of that file into the target format, to where the walk
/// was told to write.
pub proof fn lemma_every_candidate_is_converted(
    tree: spec_fn(Seq<char>) -> Seq<EntryView>,
    root: EntryView,
    output_directory: Option<Seq<char>>,
    format: ImageFormat,
    identity_of: spec_fn(Seq<char>) -> Seq<char>,
    chain: Seq<Seq<char>>,
    file: EntryView,
)
    requires
        root.is_directory,
        has_no_links(tree, root, identity_of),
        leads_down(tree, root.path, chain),
        entries_of(tree, chain.last()).contains(file),
        file.kind(format) == EntryKind::CandidateFile,
    ensures
        is_handed_out(
            tree,
            WalkerView::initial(root, output_directory, format),
            chain.len(),
            WalkerView::initial(root, output_directory, format).conversion_of(file),
        ),
{
    let start = WalkerView::initial(root, output_directory, format);
    let directory = chain.last();
    lemma_every_directory_is_listed(tree, root, output_directory, format, identity_of, chain);
    let listing = TaskView::ReadDirectory(directory);
    let round = choose|round: nat|
        round <= chain.len() - 1 && (#[trigger] run(tree, start, round)).batch().contains(listing);
    let before = run(tree, start, round);
    let reached = run(tree, start, round + 1);
    lemma_walk_keeps_track(tree, root, output_directory, format, identity_of, round);
    lemma_walk_keeps_track(tree, root, output_directory, format, identity_of, round + 1);
    lemma_one_more_round(tree, start, round);
    lemma_listed_is_looked_at(tree, before.drained(), before.batch(), directory);
    let i = choose|i: int|
        0 <= i < entries_of(tree, directory).len() && entries_of(tree, directory)[i] == file;
    assert(entries_of(tree, directory)[i].kind(format) == EntryKind::CandidateFile);
    assert(before.drained().conversion_of(file) == start.conversion_of(file));
    assert(reached.batch().contains(start.conversion_of(file)));
}

/// A walk that has not failed does not fail by itself, and keeps its
/// settings.
pub proof fn lemma_run_keeps_settings(
    tree: spec_fn(Seq<char>) -> Seq<EntryView>,
    start: WalkerView,
    rounds: nat,
)
    requires
        start.failure is None,
    ensures
        run(tree, start, rounds).failure is None,
        run(tree, start, rounds).output_directory == start.output_directory,
        run(tree, start, rounds).target_format == start.target_format,
    decreases rounds,
{
    if rounds > 0 {
        let earlier = (rounds - 1) as nat;
        let before = run(tree, start, earlier);
        lemma_run_keeps_settings(tree, start, earlier);
        lemma_one_more_round(tree, start, earlier);
        lemma_answers(tree, before.drained(), before.batch(), Set::empty());
    }
}

/// The answers to a batch queue no task but that of an entry of a
/// directory which the batch lists.
pub proof fn lemma_answers_queue_entries(
    tree: spec_fn(Seq<char>) -> Seq<EntryView>,
    state: WalkerView,
    batch: Seq<TaskView>,
)
    requires
        state.failure is None,
    ensures
        forall|task: TaskView| #[trigger]
            after_all(state, responses(tree, batch)).queue.contains(task) ==> state.queue.contains(
                task,
            ) || exists|directory: Seq<char>, i: int|
                batch.contains(TaskView::ReadDirectory(directory)) && 0 <= i < entries_of(
                    tree,
                    directory,
                ).len() && state.task_of(#[trigger] entries_of(tree, directory)[i]) == Some(task),
    decreases batch.len(),
{
    let events = responses(tree, batch);
    let last = after_all(state, events);
    if batch.len() > 0 {
        lemma_answers_queue_entries(tree, state, batch.drop_last());
        lemma_answers(tree, state, batch.drop_last(), Set::empty());
        assert(events.drop_last() =~= responses(tree, batch.drop_last()));
        let before = after_all(state, events.drop_last());
        assert(last == before.after(response(tree, batch.last())));
        assert forall|task: TaskView| #[trigger] last.queue.contains(task) implies state.queue.contains(
            task,
        ) || exists|directory: Seq<char>, i: int|
            batch.contains(TaskView::ReadDirectory(directory)) && 0 <= i < entries_of(
                tree,
                directory,
            ).len() && state.task_of(#[trigger] entries_of(tree, directory)[i]) == Some(task) by {
            if before.queue.contains(task) {
                if !state.queue.contains(task) {
                    let (directory, i) = choose|directory: Seq<char>, i: int|
                        batch.drop_last().contains(TaskView::ReadDirectory(directory)) && 0 <= i
                            < entries_of(tree, directory).len() && state.task_of(
                            #[trigger] entries_of(tree, directory)[i],
                        ) == Some(task);
                    let listing = TaskView::ReadDirectory(directory);
                    let at = choose|at: int|
                        0 <= at < batch.drop_last().len() && batch.drop_last()[at] == listing;
                    assert(batch[at] == listing);
                    assert(state.task_of(entries_of(tree, directory)[i]) == Some(task));
                }
            } else {
                let directory = batch.last()->ReadDirectory_0;
                let entries = entries_of(tree, directory);
                lemma_listing(before, entries);
                let i = choose|i: int|
                    0 <= i < entries.len() && before.task_of(#[trigger] entries[i]) == Some(task);
                assert(batch[batch.len() - 1] == TaskView::ReadDirectory(directory));
                assert(state.task_of(entries_of(tree, directory)[i]) == Some(task));
            }
        }
    }
}

/// Nothing is converted but a candidate file of a directory that was
/// listed: a conversion that is handed out in some round of the walk of a
/// root is the conversion of a file which the target format accepts, found
/// in a directory whose listing was handed out before.
pub proof fn lemma_nothing_else_is_converted(
    tree: spec_fn(Seq<char>) -> Seq<EntryView>,
    root: EntryView,
    output_directory: Option<Seq<char>>,
    format: ImageFormat,
    rounds: nat,
    task: TaskView,
)
    requires
        task is Convert,
        run(tree, WalkerView::initial(root, output_directory, format), rounds).batch().contains(
            task,
        ),
    ensures
        rounds > 0,
        exists|directory: Seq<char>, i: int|
            is_handed_out(
                tree,
                WalkerView::initial(root, output_directory, format),
                (rounds - 1) as nat,
                TaskView::ReadDirectory(directory),
            ) && 0 <= i < entries_of(tree, directory).len() && (#[trigger] entries_of(
                tree,
                directory,
            )[i]).kind(format) == EntryKind::CandidateFile && WalkerView::initial(
                root,
                output_directory,
                format,
            ).conversion_of(entries_of(tree, directory)[i]) == task,
{
    let start = WalkerView::initial(root, output_directory, format);
    if rounds == 0 {
        let at = choose|at: int| 0 <= at < start.batch().len() && start.batch()[at] == task;
        assert(start.batch()[at] is ReadDirectory);
    } else {
        let earlier = (rounds - 1) as nat;
        let before = run(tree, start, earlier);
        let reached = run(tree, start, rounds);
        lemma_run_keeps_settings(tree, start, earlier);
        lemma_run_keeps_settings(tree, start, rounds);
        lemma_one_more_round(tree, start, earlier);
        lemma_answers_queue_entries(tree, before.drained(), before.batch());
        let answered = after_all(before.drained(), responses(tree, before.batch()));
        assert(answered == reached);
        assert(answered.queue.contains(task));
        assert(!before.drained().queue.contains(task));
        let (directory, i) = choose|directory: Seq<char>, i: int|
            before.batch().contains(TaskView::ReadDirectory(directory)) && 0 <= i < entries_of(
                tree,
                directory,
            ).len() && before.drained().task_of(#[trigger] entries_of(tree, directory)[i]) == Some(
                task,
            );
        let entry = entries_of(tree, directory)[i];
        assert(run(tree, start, earlier).batch().contains(TaskView::ReadDirectory(directory)));
        assert(is_handed_out(tree, start, earlier, TaskView::ReadDirectory(directory)));
        assert(entry.kind(format) == EntryKind::CandidateFile);
        assert(start.conversion_of(entry) == task);
    }
}

} // verus!
