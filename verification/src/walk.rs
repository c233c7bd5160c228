//! The walk over a directory tree, as a queue of tasks.
//!
//! The walker decides and never touches the file system. Its caller takes
//! a batch of tasks, carries them out in any order or all at once, and
//! records what came of each. A directory that was listed adds the tasks
//! for its entries; the first failure recorded ends the walk, and what was
//! still queued is dropped.
//!
//! A directory is listed once, however many paths lead to it. The caller
//! gives every directory an identity that does not depend on the path, and
//! the walker passes over a directory whose identity it has met before, so
//! that links which lead back into the tree cannot keep the walk going.

use crate::convert::{ConversionOutcome, ConversionRequest, RequestView};
use crate::error::{ConvertError, ErrorKind, ErrorView};
use crate::format::ImageFormat;
use crate::path::optional_view;
use vstd::prelude::*;
use vstd::string::*;

verus! {

/// An entry of a directory, as it was found when the directory was listed.
///
/// The identity of a directory is a name for the directory itself, the same
/// by whatever path it was reached: its canonical path will do. The identity
/// of a file is not looked at.
#[derive(Clone, Debug, PartialEq, Eq)]
pub struct DirEntry {
    pub path: String,
    pub is_directory: bool,
    pub identity: String,
}

/// An entry, with its texts as sequences of characters.
pub struct EntryView {
    pub path: Seq<char>,
    pub is_directory: bool,
    pub identity: Seq<char>,
}

impl View for DirEntry {
    type V = EntryView;

    open spec fn view(&self) -> EntryView {
        EntryView { path: self.path@, is_directory: self.is_directory, identity: self.identity@ }
    }
}

/// What the walk does with an entry.
#[derive(Clone, Copy, Debug, PartialEq, Eq, Structural)]
pub enum EntryKind {
    /// A directory: it is walked in turn.
    Directory,
    /// A file that the target format accepts: it is converted.
    CandidateFile,
    /// Any other file: it is left alone.
    IgnoredFile,
}

impl EntryView {
    /// What the walk does with this entry when converting into `format`.
    pub open spec fn kind(self, format: ImageFormat) -> EntryKind {
        if self.is_directory {
            EntryKind::Directory
        } else if format.accepts(self.path) {
            EntryKind::CandidateFile
        } else {
            EntryKind::IgnoredFile
        }
    }
}

impl DirEntry {
    /// What the walk does with this entry when converting into `format`.
    pub fn classify(&self, format: &ImageFormat) -> (kind: EntryKind)
        ensures
            kind == self@.kind(*format),
    {
        if self.is_directory {
            EntryKind::Directory
        } else if format.is_supported_input(self.path.as_str()) {
            EntryKind::CandidateFile
        } else {
            EntryKind::IgnoredFile
        }
    }
}

/// A piece of work that the walker hands to its caller.
#[derive(Clone, Debug, PartialEq, Eq)]
pub enum Task {
    /// List the entries of this directory.
    ReadDirectory(String),
    /// Convert this file.
    Convert(ConversionRequest),
}

/// A task, with its paths as sequences of characters.
pub enum TaskView {
    ReadDirectory(Seq<char>),
    Convert(RequestView),
}

impl View for Task {
    type V = TaskView;

    open spec fn view(&self) -> TaskView {
        match self {
            Task::ReadDirectory(directory) => TaskView::ReadDirectory(directory@),
            Task::Convert(request) => TaskView::Convert(request@),
        }
    }
}

/// What came of a task.
#[derive(Debug, PartialEq, Eq)]
pub enum Event {
    /// A directory was listed, and these are its entries. Entries that could
    /// not be read are left out by the caller.
    Listed(Vec<DirEntry>),
    /// A directory could not be listed.
    Unlisted { directory: String, cause: String },
    /// A conversion ended: with the path written to, or with a failure.
    Converted(ConversionOutcome),
}

/// An event, with its texts as sequences of characters.
pub enum EventView {
    Listed(Seq<EntryView>),
    Unlisted { directory: Seq<char>, cause: Seq<char> },
    Converted(Result<Seq<char>, ErrorView>),
}

/// The views of a list of entries.
pub open spec fn entry_views(entries: Seq<DirEntry>) -> Seq<EntryView> {
    entries.map_values(|entry: DirEntry| entry@)
}

/// The views of a list of tasks.
pub open spec fn task_views(tasks: Seq<Task>) -> Seq<TaskView> {
    tasks.map_values(|task: Task| task@)
}

/// The view of an optional failure.
pub open spec fn failure_view(failure: Option<ConvertError>) -> Option<ErrorView> {
    match failure {
        None => None,
        Some(error) => Some(error@),
    }
}

impl View for Event {
    type V = EventView;

    open spec fn view(&self) -> EventView {
        match self {
            Event::Listed(entries) => EventView::Listed(entry_views(entries@)),
            Event::Unlisted { directory, cause } => EventView::Unlisted {
                directory: directory@,
                cause: cause@,
            },
            Event::Converted(outcome) => EventView::Converted(
                match outcome {
                    Ok(path) => Ok(path@),
                    Err(error) => Err(error@),
                },
            ),
        }
    }
}

/// The views of a list of strings.
pub open spec fn string_views(strings: Seq<String>) -> Seq<Seq<char>> {
    strings.map_values(|string: String| string@)
}

/// How many of `tasks` are listings of a directory.
pub open spec fn listings(tasks: Seq<TaskView>) -> nat
    decreases tasks.len(),
{
    if tasks.len() == 0 {
        0
    } else {
        listings(tasks.drop_last()) + if tasks.last() is ReadDirectory {
            1nat
        } else {
            0nat
        }
    }
}

/// The failure that an event brings, if it brings one.
pub open spec fn failure_of(event: EventView) -> Option<ErrorView> {
    match event {
        EventView::Listed(_) => None,
        EventView::Unlisted { directory, cause } => Some(
            ErrorView { kind: ErrorKind::DirectoryRead, path: directory, cause },
        ),
        EventView::Converted(Ok(_)) => None,
        EventView::Converted(Err(error)) => Some(error),
    }
}

impl Event {
    /// Whether this event brings a failure: a directory that could not be
    /// listed, or a conversion that failed.
    pub fn is_failure(&self) -> (failure: bool)
        ensures
            failure == (failure_of(self@) is Some),
    {
        match self {
            Event::Listed(_) => false,
            Event::Unlisted { .. } => true,
            Event::Converted(Ok(_)) => false,
            Event::Converted(Err(_)) => true,
        }
    }
}

/// The state of a walk: what it converts into and where to, the tasks that
/// wait, and the first failure if there was one.
pub struct Walker {
    output_directory: Option<String>,
    target_format: ImageFormat,
    queue: Vec<Task>,
    visited: Vec<String>,
    failure: Option<ConvertError>,
}

/// The state of a walk, with its texts as sequences of characters: the
/// tasks that wait, in the order in which they were queued, and the
/// identities of the directories that were queued so far.
pub struct WalkerView {
    pub output_directory: Option<Seq<char>>,
    pub target_format: ImageFormat,
    pub queue: Seq<TaskView>,
    pub visited: Seq<Seq<char>>,
    pub failure: Option<ErrorView>,
}

impl WalkerView {
    /// The state in which a walk of `root` begins. A root that is no
    /// directory leaves nothing to do.
    pub open spec fn initial(
        root: EntryView,
        output_directory: Option<Seq<char>>,
        target_format: ImageFormat,
    ) -> WalkerView {
        WalkerView {
            output_directory,
            target_format,
            queue: if root.is_directory {
                seq![TaskView::ReadDirectory(root.path)]
            } else {
                Seq::empty()
            },
            visited: if root.is_directory {
                seq![root.identity]
            } else {
                Seq::empty()
            },
            failure: None,
        }
    }

    /// The conversion of the file that `entry` stands for.
    pub open spec fn conversion_of(self, entry: EntryView) -> TaskView {
        TaskView::Convert(
            RequestView {
                input_path: entry.path,
                output_directory: self.output_directory,
                target_format: self.target_format,
            },
        )
    }

    /// The task that `entry` can give rise to: the listing of a directory,
    /// the conversion of a candidate file, none for a file that is ignored.
    pub open spec fn task_of(self, entry: EntryView) -> Option<TaskView> {
        match entry.kind(self.target_format) {
            EntryKind::Directory => Some(TaskView::ReadDirectory(entry.path)),
            EntryKind::CandidateFile => Some(self.conversion_of(entry)),
            EntryKind::IgnoredFile => None,
        }
    }

    /// The state after one entry of a listing was looked at. A directory
    /// that was not met before is queued and its identity kept; a candidate
    /// file is queued; a directory met before and a file that is ignored
    /// change nothing.
    pub open spec fn with_entry(self, entry: EntryView) -> WalkerView {
        match entry.kind(self.target_format) {
            EntryKind::Directory => if self.visited.contains(entry.identity) {
                self
            } else {
                WalkerView {
                    queue: self.queue.push(TaskView::ReadDirectory(entry.path)),
                    visited: self.visited.push(entry.identity),
                    ..self
                }
            },
            EntryKind::CandidateFile => WalkerView {
                queue: self.queue.push(self.conversion_of(entry)),
                ..self
            },
            EntryKind::IgnoredFile => self,
        }
    }

    /// The state after the entries of a listing were looked at, one after
    /// the other.
    pub open spec fn with_entries(self, entries: Seq<EntryView>) -> WalkerView
        decreases entries.len(),
    {
        if entries.len() == 0 {
            self
        } else {
            self.with_entries(entries.drop_last()).with_entry(entries.last())
        }
    }

    /// Whether the identities met are all different. Every walk begins so
    /// and stays so.
    pub open spec fn well_formed(self) -> bool {
        self.visited.no_duplicates()
    }

    /// Whether nothing is left to hand out: the walk has failed, or no task
    /// waits.
    pub open spec fn finished(self) -> bool {
        self.failure is Some || self.queue.len() == 0
    }

    /// The tasks that the next batch holds: all that wait, or none once the
    /// walk has failed.
    pub open spec fn batch(self) -> Seq<TaskView> {
        if self.failure is Some {
            Seq::empty()
        } else {
            self.queue
        }
    }

    /// The state after a batch was taken: no task waits.
    pub open spec fn drained(self) -> WalkerView {
        WalkerView { queue: Seq::empty(), ..self }
    }

    /// The state after `event` was recorded. Once the walk has failed no
    /// event changes it. Before that, a listing has its entries looked at,
    /// and a failure is kept and empties the queue.
    pub open spec fn after(self, event: EventView) -> WalkerView {
        if self.failure is Some {
            self
        } else {
            match failure_of(event) {
                Some(error) => WalkerView { queue: Seq::empty(), failure: Some(error), ..self },
                None => match event {
                    EventView::Listed(entries) => self.with_entries(entries),
                    _ => self,
                },
            }
        }
    }
}

impl View for Walker {
    type V = WalkerView;

    closed spec fn view(&self) -> WalkerView {
        WalkerView {
            output_directory: optional_view(self.output_directory),
            target_format: self.target_format,
            queue: task_views(self.queue@),
            visited: string_views(self.visited@),
            failure: failure_view(self.failure),
        }
    }
}

/// The state after each of `events` was recorded in turn.
pub open spec fn after_all(state: WalkerView, events: Seq<EventView>) -> WalkerView
    decreases events.len(),
{
    if events.len() == 0 {
        state
    } else {
        after_all(state, events.drop_last()).after(events.last())
    }
}

/// A root that is no directory gives a walk that is over at once, with
/// nothing to hand out and no failure.
pub proof fn lemma_root_not_a_directory(
    root: EntryView,
    output_directory: Option<Seq<char>>,
    target_format: ImageFormat,
)
    requires
        !root.is_directory,
    ensures
        WalkerView::initial(root, output_directory, target_format).finished(),
        WalkerView::initial(root, output_directory, target_format).batch().len() == 0,
        WalkerView::initial(root, output_directory, target_format).failure is None,
{
}

/// A walk begins with identities that are all different, and no event and
/// no batch that is taken changes that.
pub proof fn lemma_well_formed_is_kept(
    root: EntryView,
    output_directory: Option<Seq<char>>,
    target_format: ImageFormat,
    state: WalkerView,
    event: EventView,
)
    ensures
        WalkerView::initial(root, output_directory, target_format).well_formed(),
        state.well_formed() ==> state.after(event).well_formed(),
        state.well_formed() ==> state.drained().well_formed(),
{
    match event {
        EventView::Listed(entries) => {
            lemma_listing(state, entries);
        },
        _ => {},
    }
}

/// A failure ends the walk: the event that brings the first one leaves
/// nothing to hand out, and no later event or batch changes the failure that
/// was kept.
pub proof fn lemma_failure_is_final(state: WalkerView, event: EventView, later: EventView)
    requires
        state.failure is None,
        failure_of(event) is Some,
    ensures
        state.after(event).failure == failure_of(event),
        state.after(event).finished(),
        state.after(event).batch().len() == 0,
        state.after(event).after(later) == state.after(event),
        state.after(event).drained().failure == failure_of(event),
{
}

/// Whatever the other events are, a run in which some event brings a
/// failure ends with a failure: the one of the first such event.
pub proof fn lemma_first_failure_wins(state: WalkerView, events: Seq<EventView>, first: int)
    requires
        state.failure is None,
        0 <= first < events.len(),
        failure_of(events[first]) is Some,
        forall|i: int| 0 <= i < first ==> failure_of(events[i]) is None,
    ensures
        after_all(state, events).failure == failure_of(events[first]),
        after_all(state, events).batch().len() == 0,
    decreases events.len(),
{
    let earlier = events.drop_last();
    if first == events.len() - 1 {
        lemma_without_failure(state, earlier);
    } else {
        lemma_first_failure_wins(state, earlier, first);
    }
}

/// A run in which no event brings a failure has none at its end, and
/// whatever was queued at its beginning is still queued.
pub proof fn lemma_without_failure(state: WalkerView, events: Seq<EventView>)
    requires
        state.failure is None,
        forall|i: int| 0 <= i < events.len() ==> failure_of(events[i]) is None,
    ensures
        after_all(state, events).failure is None,
        after_all(state, events).output_directory == state.output_directory,
        after_all(state, events).target_format == state.target_format,
        state.queue.is_prefix_of(after_all(state, events).queue),
    decreases events.len(),
{
    if events.len() > 0 {
        lemma_without_failure(state, events.drop_last());
        let before = after_all(state, events.drop_last());
        match events.last() {
            EventView::Listed(entries) => {
                lemma_listing(before, entries);
            },
            _ => {},
        }
    }
}

/// What a sequence holds, every sequence holds that begins with it.
pub proof fn lemma_prefix_contains<T>(shorter: Seq<T>, longer: Seq<T>, item: T)
    requires
        shorter.is_prefix_of(longer),
        shorter.contains(item),
    ensures
        longer.contains(item),
{
    let at = choose|at: int| 0 <= at < shorter.len() && shorter[at] == item;
    assert(longer[at] == item);
}

/// Queueing one more task adds one to the listings if it is a listing.
pub proof fn lemma_listings_push(tasks: Seq<TaskView>, task: TaskView)
    ensures
        listings(tasks.push(task)) == listings(tasks) + if task is ReadDirectory {
            1nat
        } else {
            0nat
        },
{
    assert(tasks.push(task).drop_last() =~= tasks);
}

/// What a listing does to the walk. It changes neither the settings nor the
/// failure, and it only adds to the queue and to the identities met: at most
/// one task for each entry, and one identity for each listing it queues.
/// Identities that were all different stay so. Every candidate file among
/// the entries is queued for conversion. Every directory among them has its
/// identity among those met: it was queued now or before. No identity is
/// met but that of a directory among the entries, whose listing is queued
/// with it, and no task is queued but the task of an entry: the conversion
/// of a candidate file or the listing of a directory.
pub proof fn lemma_listing(state: WalkerView, entries: Seq<EntryView>)
    ensures
        state.with_entries(entries).output_directory == state.output_directory,
        state.with_entries(entries).target_format == state.target_format,
        state.with_entries(entries).failure == state.failure,
        state.queue.is_prefix_of(state.with_entries(entries).queue),
        state.visited.is_prefix_of(state.with_entries(entries).visited),
        state.with_entries(entries).queue.len() <= state.queue.len() + entries.len(),
        listings(state.with_entries(entries).queue) - listings(state.queue)
            == state.with_entries(entries).visited.len() - state.visited.len(),
        state.visited.no_duplicates() ==> state.with_entries(entries).visited.no_duplicates(),
        forall|i: int|
            0 <= i < entries.len() && (#[trigger] entries[i]).kind(state.target_format)
                == EntryKind::CandidateFile ==> state.with_entries(entries).queue.contains(
                state.conversion_of(entries[i]),
            ),
        forall|i: int|
            0 <= i < entries.len() && (#[trigger] entries[i]).is_directory
                ==> state.with_entries(entries).visited.contains(entries[i].identity),
        forall|identity: Seq<char>| #[trigger]
            state.with_entries(entries).visited.contains(identity) ==> state.visited.contains(
                identity,
            ) || exists|i: int|
                0 <= i < entries.len() && (#[trigger] entries[i]).is_directory
                    && entries[i].identity == identity && state.with_entries(
                    entries,
                ).queue.contains(TaskView::ReadDirectory(entries[i].path)),
        forall|task: TaskView| #[trigger]
            state.with_entries(entries).queue.contains(task) ==> state.queue.contains(task)
                || exists|i: int|
                0 <= i < entries.len() && state.task_of(#[trigger] entries[i]) == Some(task),
    decreases entries.len(),
{
    let next = state.with_entries(entries);
    if entries.len() > 0 {
        let earlier = entries.drop_last();
        let entry = entries.last();
        let before = state.with_entries(earlier);
        lemma_listing(state, earlier);
        match entry.kind(state.target_format) {
            EntryKind::Directory => {
                if !before.visited.contains(entry.identity) {
                    lemma_listings_push(before.queue, TaskView::ReadDirectory(entry.path));
                    assert(next.visited[next.visited.len() - 1] == entry.identity);
                }
            },
            EntryKind::CandidateFile => {
                lemma_listings_push(before.queue, state.conversion_of(entry));
            },
            EntryKind::IgnoredFile => {},
        }
        assert forall|i: int|
            0 <= i < entries.len() && (#[trigger] entries[i]).kind(state.target_format)
                == EntryKind::CandidateFile implies next.queue.contains(
            state.conversion_of(entries[i]),
        ) by {
            if i < earlier.len() {
                assert(earlier[i] == entries[i]);
                let task = state.conversion_of(entries[i]);
                let at = choose|at: int| 0 <= at < before.queue.len() && before.queue[at] == task;
                assert(next.queue[at] == task);
            }
        }
        assert forall|i: int|
            0 <= i < entries.len() && (#[trigger] entries[i]).is_directory
                implies next.visited.contains(entries[i].identity) by {
            let identity = entries[i].identity;
            if i < earlier.len() {
                assert(earlier[i] == entries[i]);
                let at = choose|at: int|
                    0 <= at < before.visited.len() && before.visited[at] == identity;
                assert(next.visited[at] == identity);
            }
        }
        assert forall|identity: Seq<char>| #[trigger]
            next.visited.contains(identity) implies state.visited.contains(identity) || exists|
            i: int,
        |
            0 <= i < entries.len() && (#[trigger] entries[i]).is_directory && entries[i].identity
                == identity && next.queue.contains(TaskView::ReadDirectory(entries[i].path)) by {
            let at = choose|at: int| 0 <= at < next.visited.len() && next.visited[at] == identity;
            if at < before.visited.len() {
                assert(before.visited.contains(identity));
                if !state.visited.contains(identity) {
                    let i = choose|i: int|
                        0 <= i < earlier.len() && (#[trigger] earlier[i]).is_directory
                            && earlier[i].identity == identity && before.queue.contains(
                            TaskView::ReadDirectory(earlier[i].path),
                        );
                    assert(entries[i] == earlier[i]);
                    lemma_prefix_contains(
                        before.queue,
                        next.queue,
                        TaskView::ReadDirectory(entries[i].path),
                    );
                }
            } else {
                let i = entries.len() - 1;
                assert(entries[i].is_directory && entries[i].identity == identity);
                assert(next.queue[next.queue.len() - 1] == TaskView::ReadDirectory(entry.path));
            }
        }
        assert forall|task: TaskView| #[trigger] next.queue.contains(task) implies state.queue.contains(
            task,
        ) || exists|i: int|
            0 <= i < entries.len() && state.task_of(#[trigger] entries[i]) == Some(task) by {
            let at = choose|at: int| 0 <= at < next.queue.len() && next.queue[at] == task;
            if at < before.queue.len() {
                assert(before.queue.contains(task));
                if !state.queue.contains(task) {
                    let i = choose|i: int|
                        0 <= i < earlier.len() && state.task_of(#[trigger] earlier[i]) == Some(task);
                    assert(entries[i] == earlier[i]);
                }
            } else {
                assert(state.task_of(entries[entries.len() - 1]) == Some(task));
            }
        }
    }
}

/// A listing queues no conversion but of a file that the target format
/// accepts, so that a file which carries the extension of the target format
/// is never converted. The conversion goes where the walk was told to
/// write.
pub proof fn lemma_only_candidates_are_converted(
    state: WalkerView,
    entries: Seq<EntryView>,
    request: RequestView,
)
    requires
        state.with_entries(entries).queue.contains(TaskView::Convert(request)),
        !state.queue.contains(TaskView::Convert(request)),
    ensures
        state.target_format.accepts(request.input_path),
        request.target_format == state.target_format,
        request.output_directory == state.output_directory,
        exists|i: int|
            0 <= i < entries.len() && !(#[trigger] entries[i]).is_directory && entries[i].path
                == request.input_path,
{
    lemma_listing(state, entries);
    let task = TaskView::Convert(request);
    let i = choose|i: int| 0 <= i < entries.len() && state.task_of(#[trigger] entries[i]) == Some(task);
    assert(!entries[i].is_directory && entries[i].path == request.input_path);
}

/// Where every entry of a directory is a candidate file, each gets a
/// conversion of its own: the listing queues as many tasks as there are
/// entries, in their order, each for its entry, and changes nothing else.
pub proof fn lemma_every_candidate_is_queued(state: WalkerView, entries: Seq<EntryView>)
    requires
        forall|i: int|
            0 <= i < entries.len() ==> (#[trigger] entries[i]).kind(state.target_format)
                == EntryKind::CandidateFile,
    ensures
        state.with_entries(entries) == (WalkerView {
            queue: state.queue + entries.map_values(|entry: EntryView| state.conversion_of(entry)),
            ..state
        }),
    decreases entries.len(),
{
    let conversions = entries.map_values(|entry: EntryView| state.conversion_of(entry));
    if entries.len() > 0 {
        let earlier = entries.drop_last();
        lemma_every_candidate_is_queued(state, earlier);
        let before = state.with_entries(earlier);
        assert(before.queue.push(state.conversion_of(entries.last())) =~= state.queue
            + conversions);
    }
}

impl Walker {
    /// Begins a walk of `root`. If `root` is no directory, the walk is over
    /// before it began, and with success.
    pub fn new(root: &DirEntry, output_directory: &Option<String>, target_format: ImageFormat) -> (walker:
        Walker)
        ensures
            walker@ == WalkerView::initial(root@, optional_view(*output_directory), target_format),
            walker@.well_formed(),
    {
        let mut queue: Vec<Task> = Vec::new();
        let mut visited: Vec<String> = Vec::new();
        if root.is_directory {
            queue.push(Task::ReadDirectory(root.path.clone()));
            visited.push(root.identity.clone());
        }
        let output_directory = match output_directory {
            None => None,
            Some(dir) => Some(dir.clone()),
        };
        let walker = Walker { output_directory, target_format, queue, visited, failure: None };
        proof {
            let begin = WalkerView::initial(root@, walker@.output_directory, target_format);
            assert(walker@.queue =~= begin.queue);
            assert(walker@.visited =~= begin.visited);
        }
        walker
    }

    /// Whether nothing is left to hand out.
    pub fn is_finished(&self) -> (finished: bool)
        ensures
            finished == self@.finished(),
    {
        self.failure.is_some() || self.queue.len() == 0
    }

    /// Hands out every task that waits, in the order in which they were
    /// queued, and leaves the queue empty. After a failure nothing is handed
    /// out any more.
    pub fn next_batch(&mut self) -> (batch: Vec<Task>)
        ensures
            task_views(batch@) == old(self)@.batch(),
            batch@.len() == old(self)@.batch().len(),
            final(self)@ == old(self)@.drained(),
            old(self)@.well_formed() ==> final(self)@.well_formed(),
    {
        let mut batch: Vec<Task> = Vec::new();
        if self.failure.is_none() {
            std::mem::swap(&mut self.queue, &mut batch);
        } else {
            self.queue = Vec::new();
        }
        assert(self@.queue =~= Seq::<TaskView>::empty());
        batch
    }

    /// Records what came of a task.
    pub fn record(&mut self, event: Event)
        ensures
            final(self)@ == old(self)@.after(event@),
            old(self)@.well_formed() ==> final(self)@.well_formed(),
    {
        proof {
            if let EventView::Listed(entries) = event@ {
                lemma_listing(self@, entries);
            }
        }
        if self.failure.is_some() {
            return ;
        }
        match event {
            Event::Listed(entries) => {
                self.enqueue(&entries);
            },
            Event::Unlisted { directory, cause } => {
                self.fail(ConvertError::new(ErrorKind::DirectoryRead, directory.as_str(), cause));
            },
            Event::Converted(Ok(_)) => {},
            Event::Converted(Err(error)) => {
                self.fail(error);
            },
        }
    }

    /// How the walk ended, or stands so far: with the first failure that
    /// was recorded, or else with success.
    pub fn outcome(&self) -> (outcome: Result<(), ConvertError>)
        ensures
            match self@.failure {
                None => outcome is Ok,
                Some(error) => outcome is Err && outcome->Err_0@ == error,
            },
    {
        match &self.failure {
            None => Ok(()),
            Some(error) => Err(error.duplicate()),
        }
    }

    /// Keeps `error` as the failure of the walk and drops what was queued.
    fn fail(&mut self, error: ConvertError)
        requires
            old(self)@.failure is None,
        ensures
            final(self)@ == (WalkerView {
                queue: Seq::empty(),
                failure: Some(error@),
                ..old(self)@
            }),
    {
        self.queue = Vec::new();
        self.failure = Some(error);
        assert(self@.queue =~= Seq::<TaskView>::empty());
    }

    /// Whether a directory of this identity was queued before.
    fn has_visited(&self, identity: &String) -> (met: bool)
        ensures
            met == self@.visited.contains(identity@),
    {
        let mut i: usize = 0;
        while i < self.visited.len()
            invariant
                i <= self.visited.len(),
                forall|j: int| 0 <= j < i ==> self@.visited[j] != identity@,
            decreases self.visited.len() - i,
        {
            if self.visited[i] == *identity {
                assert(self@.visited[i as int] == identity@);
                return true;
            }
            i += 1;
        }
        false
    }

    /// Looks at the entries of a directory, one after the other.
    fn enqueue(&mut self, entries: &Vec<DirEntry>)
        ensures
            final(self)@ == old(self)@.with_entries(entry_views(entries@)),
    {
        let ghost before = self@;
        let ghost all = entry_views(entries@);
        let mut i: usize = 0;
        while i < entries.len()
            invariant
                i <= entries.len(),
                all == entry_views(entries@),
                self@ == before.with_entries(all.take(i as int)),
            decreases entries.len() - i,
        {
            let ghost earlier = self@;
            let entry = &entries[i];
            proof {
                lemma_listing(before, all.take(i as int));
                assert(all.take(i + 1).drop_last() =~= all.take(i as int));
            }
            match entry.classify(&self.target_format) {
                EntryKind::Directory => {
                    if !self.has_visited(&entry.identity) {
                        self.queue.push(Task::ReadDirectory(entry.path.clone()));
                        self.visited.push(entry.identity.clone());
                        proof {
                            assert(self@.queue =~= earlier.queue.push(
                                TaskView::ReadDirectory(entry@.path),
                            ));
                            assert(self@.visited =~= earlier.visited.push(entry@.identity));
                        }
                    }
                },
                EntryKind::CandidateFile => {
                    self.queue.push(
                        Task::Convert(
                            ConversionRequest::new(
                                entry.path.as_str(),
                                &self.output_directory,
                                self.target_format,
                            ),
                        ),
                    );
                    proof {
                        assert(self@.queue =~= earlier.queue.push(earlier.conversion_of(entry@)));
                    }
                },
                EntryKind::IgnoredFile => {},
            }
            i += 1;
        }
        assert(all.take(i as int) =~= all);
    }
}

} // verus!
