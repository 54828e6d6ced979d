//! From the events of the notification service to operations on the index.

use crate::search::file::{views, Change, FileOperation, WatchError};
use crate::text::chars_of;
use vstd::prelude::*;
use vstd::string::StrSliceExecFns;

verus! {

/// Events are gathered over this many seconds before they are handed on.
pub const DEBOUNCE_SECONDS: u64 = 1;

/// The watcher waits this many milliseconds for events before it looks for a
/// request to stop.
pub const POLL_MILLIS: u64 = 100;

/// How a name changed, as the notification service tells it.
#[derive(Debug, Clone, Copy, PartialEq, Eq)]
pub enum RenameMode {
    Any,
    To,
    From,
    Both,
    Other,
}

/// What was modified.
#[derive(Debug, Clone, Copy, PartialEq, Eq)]
pub enum ModifyKind {
    Any,
    Data,
    Metadata,
    Name(RenameMode),
    Other,
}

/// What was removed.
#[derive(Debug, Clone, Copy, PartialEq, Eq)]
pub enum RemoveKind {
    Any,
    File,
    Folder,
    Other,
}

/// The kind of an event.
#[derive(Debug, Clone, Copy, PartialEq, Eq)]
pub enum EventKind {
    Any,
    Access,
    Create,
    Modify(ModifyKind),
    Remove(RemoveKind),
    Other,
}

/// A debounced event: its kind, the paths it names, and, for a rename with
/// both paths, whether the second is a file now.
#[derive(Debug, Clone)]
pub struct WatchEvent {
    pub kind: EventKind,
    pub paths: Vec<String>,
    pub second_is_file: bool,
}

/// `path` without the separators it begins with.
pub open spec fn without_leading_separators(path: Seq<char>) -> Seq<char>
    decreases path.len(),
{
    if path.len() > 0 && path[0] == '/' {
        without_leading_separators(path.skip(1))
    } else {
        path
    }
}

/// Whether `path` begins with a component that names the current directory:
/// a dot that ends the path or is followed by a separator.
pub open spec fn begins_with_current_dir(path: Seq<char>) -> bool {
    path.len() >= 1 && path[0] == '.' && (path.len() == 1 || path[1] == '/')
}

/// `path` without the current-directory components it begins with, and
/// without the separators that follow each of them.
pub open spec fn normalized(path: Seq<char>) -> Seq<char>
    decreases path.len(),
    via normalized_decreases
{
    if begins_with_current_dir(path) {
        normalized(without_leading_separators(path.skip(1)))
    } else {
        path
    }
}

#[via_fn]
proof fn normalized_decreases(path: Seq<char>) {
    if begins_with_current_dir(path) {
        lemma_without_leading_separators_shorter(path.skip(1));
    }
}

proof fn lemma_without_leading_separators_shorter(path: Seq<char>)
    ensures
        without_leading_separators(path).len() <= path.len(),
    decreases path.len(),
{
    if path.len() > 0 && path[0] == '/' {
        lemma_without_leading_separators_shorter(path.skip(1));
    }
}

/// Removes the current-directory components that `path` begins with.
pub fn normalize_notify_path(path: &str) -> (clean: String)
    ensures
        clean@ == normalized(path@),
{
    let chars = chars_of(path);
    let n = chars.len();
    let mut k: usize = 0;
    assert(path@.skip(0) =~= path@);
    while k < n && chars[k] == '.' && (k + 1 == n || chars[k + 1] == '/')
        invariant
            k <= n == chars.len(),
            chars@ == path@,
            normalized(path@) == normalized(path@.skip(k as int)),
        decreases n - k,
    {
        let ghost start = k;
        k += 1;
        assert(path@.skip(start as int).skip(1) =~= path@.skip(k as int));
        while k < n && chars[k] == '/'
            invariant
                start < k <= n == chars.len(),
                chars@ == path@,
                without_leading_separators(path@.skip(start as int).skip(1))
                    == without_leading_separators(path@.skip(k as int)),
            decreases n - k,
        {
            assert(path@.skip(k as int).skip(1) =~= path@.skip(k + 1));
            k += 1;
        }
        proof {
            assert(path@.skip(start as int).skip(1) =~= path@.skip(start + 1));
            assert(without_leading_separators(path@.skip(k as int)) == path@.skip(k as int));
            assert(begins_with_current_dir(path@.skip(start as int)));
        }
    }
    assert(!begins_with_current_dir(path@.skip(k as int)));
    assert(path@.skip(k as int) =~= path@.subrange(k as int, n as int));
    path.substring_char(k, n).to_owned()
}

/// One change for each path, made by `make` from the normalised path.
pub open spec fn each(paths: Seq<String>, make: spec_fn(Seq<char>) -> Change) -> Seq<Change> {
    paths.map_values(|path: String| make(normalized(path@)))
}

/// The changes that one event stands for; `None` for a rename that lacks one
/// of its two paths. A creation, a change of data and a removal give one
/// change for each path; a rename with both paths gives one, of a file or of
/// a directory by what the new path is; every other event gives none.
pub open spec fn changes_of(event: WatchEvent) -> Option<Seq<Change>> {
    match event.kind {
        EventKind::Create => Some(each(event.paths@, |path: Seq<char>| Change::FileCreated(path))),
        EventKind::Modify(ModifyKind::Data) => Some(
            each(event.paths@, |path: Seq<char>| Change::FileModified(path)),
        ),
        EventKind::Modify(ModifyKind::Name(RenameMode::Both)) => if event.paths@.len() >= 2 {
            let old_path = normalized(event.paths@[0]@);
            let new_path = normalized(event.paths@[1]@);
            if event.second_is_file {
                Some(seq![Change::FileRenamed { old_path, new_path }])
            } else {
                Some(seq![Change::DirectoryRenamed { old_path, new_path }])
            }
        } else {
            None
        },
        EventKind::Remove(RemoveKind::File) => Some(
            each(event.paths@, |path: Seq<char>| Change::FileDeleted(path)),
        ),
        EventKind::Remove(RemoveKind::Folder) => Some(
            each(event.paths@, |path: Seq<char>| Change::DirectoryDeleted(path)),
        ),
        _ => Some(Seq::empty()),
    }
}

/// The changes of the well-formed events, in order. A malformed event gives
/// none and takes nothing away from the others.
pub open spec fn all_changes(events: Seq<WatchEvent>) -> Seq<Change>
    decreases events.len(),
{
    if events.len() == 0 {
        Seq::empty()
    } else {
        all_changes(events.drop_last()) + match changes_of(events.last()) {
            Some(changes) => changes,
            None => Seq::empty(),
        }
    }
}

/// How many of the events are malformed.
pub open spec fn malformed_count(events: Seq<WatchEvent>) -> nat
    decreases events.len(),
{
    if events.len() == 0 {
        0
    } else {
        malformed_count(events.drop_last()) + if changes_of(events.last()) is None {
            1nat
        } else {
            0nat
        }
    }
}

/// Whether `errors` holds one report of a malformed event for each of
/// `count` events, and nothing else.
pub open spec fn reports_malformed(errors: Seq<WatchError>, count: nat) -> bool {
    errors.len() == count && forall|i: int|
        0 <= i < errors.len() ==> #[trigger] errors[i] == WatchError::MalformedEvent
}

/// Applies `f` to every path, in order.
pub fn process_paths<F: Fn(&String) -> FileOperation>(paths: &Vec<String>, f: F) -> (operations:
    Vec<FileOperation>)
    requires
        forall|path: &String| f.requires((path,)),
    ensures
        operations.len() == paths.len(),
        forall|i: int| 0 <= i < paths.len() ==> f.ensures((&paths[i],), #[trigger] operations[i]),
{
    let mut operations: Vec<FileOperation> = Vec::new();
    let mut i: usize = 0;
    while i < paths.len()
        invariant
            i <= paths.len(),
            operations.len() == i,
            forall|path: &String| f.requires((path,)),
            forall|j: int| 0 <= j < i ==> f.ensures((&paths[j],), #[trigger] operations[j]),
        decreases paths.len() - i,
    {
        let operation = f(&paths[i]);
        operations.push(operation);
        i += 1;
    }
    operations
}

/// The creation of `path`, normalised.
fn created(path: &String) -> (operation: FileOperation)
    ensures
        operation@ == Change::FileCreated(normalized(path@)),
{
    FileOperation::FileCreated(normalize_notify_path(path.as_str()))
}

/// The modification of `path`, normalised.
fn modified(path: &String) -> (operation: FileOperation)
    ensures
        operation@ == Change::FileModified(normalized(path@)),
{
    FileOperation::FileModified(normalize_notify_path(path.as_str()))
}

/// The removal of the file of `path`, normalised.
fn file_deleted(path: &String) -> (operation: FileOperation)
    ensures
        operation@ == Change::FileDeleted(normalized(path@)),
{
    FileOperation::FileDeleted(normalize_notify_path(path.as_str()))
}

/// The removal of the directory of `path`, normalised.
fn directory_deleted(path: &String) -> (operation: FileOperation)
    ensures
        operation@ == Change::DirectoryDeleted(normalized(path@)),
{
    FileOperation::DirectoryDeleted(normalize_notify_path(path.as_str()))
}

/// The operations that one event stands for.
pub fn event_operations(event: &WatchEvent) -> (r: Result<Vec<FileOperation>, WatchError>)
    ensures
        match changes_of(*event) {
            Some(changes) => r matches Ok(operations) && views(operations@) == changes,
            None => r == Err::<Vec<FileOperation>, WatchError>(WatchError::MalformedEvent),
        },
{
    match event.kind {
        EventKind::Create => {
            let operations = process_paths(&event.paths, created);
            assert(views(operations@) =~= each(
                event.paths@,
                |path: Seq<char>| Change::FileCreated(path),
            ));
            Ok(operations)
        },
        EventKind::Modify(ModifyKind::Data) => {
            let operations = process_paths(&event.paths, modified);
            assert(views(operations@) =~= each(
                event.paths@,
                |path: Seq<char>| Change::FileModified(path),
            ));
            Ok(operations)
        },
        EventKind::Modify(ModifyKind::Name(RenameMode::Both)) => {
            if event.paths.len() >= 2 {
                let old_path = normalize_notify_path(event.paths[0].as_str());
                let new_path = normalize_notify_path(event.paths[1].as_str());
                let operation = if event.second_is_file {
                    FileOperation::FileRenamed { old_path, new_path }
                } else {
                    FileOperation::DirectoryRenamed { old_path, new_path }
                };
                let operations = vec![operation];
                assert(views(operations@) =~= seq![operation@]);
                Ok(operations)
            } else {
                Err(WatchError::MalformedEvent)
            }
        },
        EventKind::Remove(RemoveKind::File) => {
            let operations = process_paths(&event.paths, file_deleted);
            assert(views(operations@) =~= each(
                event.paths@,
                |path: Seq<char>| Change::FileDeleted(path),
            ));
            Ok(operations)
        },
        EventKind::Remove(RemoveKind::Folder) => {
            let operations = process_paths(&event.paths, directory_deleted);
            assert(views(operations@) =~= each(
                event.paths@,
                |path: Seq<char>| Change::DirectoryDeleted(path),
            ));
            Ok(operations)
        },
        _ => {
            let operations: Vec<FileOperation> = Vec::new();
            assert(views(operations@) =~= Seq::<Change>::empty());
            Ok(operations)
        },
    }
}

/// The operations that a run of debounced events stands for, in order, and
/// one error for each malformed event of the run. A malformed event is
/// reported and left out; the events around it give their operations all the
/// same.
pub fn process_events(events: Vec<WatchEvent>) -> (r: (Vec<FileOperation>, Vec<WatchError>))
    ensures
        views(r.0@) == all_changes(events@),
        reports_malformed(r.1@, malformed_count(events@)),
{
    let mut operations: Vec<FileOperation> = Vec::new();
    let mut errors: Vec<WatchError> = Vec::new();
    let mut i: usize = 0;
    assert(views(operations@) =~= Seq::<Change>::empty());
    while i < events.len()
        invariant
            i <= events.len(),
            views(operations@) == all_changes(events@.take(i as int)),
            reports_malformed(errors@, malformed_count(events@.take(i as int))),
        decreases events.len() - i,
    {
        assert(events@.take(i + 1).drop_last() =~= events@.take(i as int));
        assert(events@.take(i + 1).last() == events@[i as int]);
        match event_operations(&events[i]) {
            Ok(mut more) => {
                let ghost before = operations@;
                let ghost added = more@;
                operations.append(&mut more);
                assert(views(before + added) =~= views(before) + views(added));
            },
            Err(e) => {
                errors.push(e);
                assert(views(operations@) + Seq::<Change>::empty() =~= views(operations@));
            },
        }
        i += 1;
    }
    assert(events@.take(events.len() as int) =~= events@);
    (operations, errors)
}

/// What the watcher's loop found when it looked: a request to stop, or what
/// its wait for events ended with.
#[derive(Debug)]
pub enum WatchSignal {
    StopRequested,
    Events(Vec<WatchEvent>),
    Errors(Vec<String>),
    TimedOut,
    Disconnected,
}

/// What the watcher's loop does next.
#[derive(Debug)]
pub enum WatchReaction {
    /// Leave the loop.
    Stop,
    /// Hand the operations to the handler, in order, report the errors, and
    /// go on.
    Handle { deliver: Vec<FileOperation>, report: Vec<WatchError> },
    /// Go on.
    Idle,
}

/// The errors of the notification service, one for each message.
pub open spec fn backend_errors(messages: Seq<String>, errors: Seq<WatchError>) -> bool {
    &&& errors.len() == messages.len()
    &&& forall|i: int|
        0 <= i < messages.len() ==> (#[trigger] errors[i] matches WatchError::Backend(text) && text@
            == messages[i]@)
}

/// One turn of the watcher's loop. A request to stop and a closed channel end
/// the loop; events become operations, with one report for each malformed
/// event among them; errors of the service are reported; a wait that timed
/// out changes nothing.
pub fn event_loop(signal: WatchSignal) -> (reaction: WatchReaction)
    ensures
        match signal {
            WatchSignal::StopRequested | WatchSignal::Disconnected => reaction is Stop,
            WatchSignal::TimedOut => reaction is Idle,
            WatchSignal::Events(events) => reaction matches WatchReaction::Handle {
                deliver,
                report,
            } && views(deliver@) == all_changes(events@) && reports_malformed(
                report@,
                malformed_count(events@),
            ),
            WatchSignal::Errors(messages) => reaction matches WatchReaction::Handle {
                deliver,
                report,
            } && deliver@.len() == 0 && backend_errors(messages@, report@),
        },
{
    match signal {
        WatchSignal::StopRequested => WatchReaction::Stop,
        WatchSignal::Disconnected => WatchReaction::Stop,
        WatchSignal::TimedOut => WatchReaction::Idle,
        WatchSignal::Events(events) => {
            let (deliver, report) = process_events(events);
            WatchReaction::Handle { deliver, report }
        },
        WatchSignal::Errors(messages) => {
            let mut report: Vec<WatchError> = Vec::new();
            let mut i: usize = 0;
            while i < messages.len()
                invariant
                    i <= messages.len(),
                    backend_errors(messages@.take(i as int), report@),
                decreases messages.len() - i,
            {
                report.push(WatchError::Backend(messages[i].clone()));
                i += 1;
            }
            assert(messages@.take(messages.len() as int) =~= messages@);
            WatchReaction::Handle { deliver: Vec::new(), report }
        },
    }
}

} // verus!
