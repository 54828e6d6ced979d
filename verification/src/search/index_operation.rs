//! Applying operations to the index: one operation at a time, a batch under
//! one commit, and the first scan of a directory.

use crate::search::engine::fits_term;
use crate::search::file::{
    views, Change, File, FileFilter, FileLoader, FileOperation, LoadError,
};
use crate::search::laws::compliance::{
    compliant, lemma_accepted_entries_comply, lemma_batch_filter_compliance, loaded_as_asked,
};
use crate::search::model::{prefix_removed, without_path, without_prefix, Doc};
use crate::search::text_index::{IndexError, TextIndex};
use vstd::multiset::Multiset;
use vstd::prelude::*;

verus! {

/// A batch is applied as soon as it holds this many operations.
pub const MAX_BULK_OPERATION_SIZE: usize = 10;

/// How long, in milliseconds, a batch that holds something waits for one more
/// operation before it is applied.
pub const WAIT_MILLIS_FOR_NEXT_UPDATE_TO_BULK: u64 = 500;

/// What a receive on the queue of operations ended with.
#[derive(Debug)]
pub enum Received {
    Operation(FileOperation),
    TimedOut,
    Disconnected,
}

/// What the worker does after a receive: apply `flush`, where there is one,
/// under a single commit, and end the loop where `stop` is set.
#[derive(Debug)]
pub struct Step {
    pub flush: Option<Vec<FileOperation>>,
    pub stop: bool,
}

/// The operation that a receive brought, if any.
pub open spec fn incoming(received: Received) -> Seq<FileOperation> {
    match received {
        Received::Operation(operation) => seq![operation],
        _ => Seq::empty(),
    }
}

/// Whether the batch `gathered` is applied after `received`: when it is full,
/// or when it holds anything and the queue timed out or was closed.
pub open spec fn flushes(gathered: Seq<FileOperation>, received: Received) -> bool {
    match received {
        Received::Operation(_) => gathered.len() >= MAX_BULK_OPERATION_SIZE,
        _ => gathered.len() > 0,
    }
}

/// What the worker holds back after `received`: nothing where it applies
/// the batch, else the batch with the operation that came.
pub open spec fn batch_after(batch: Seq<FileOperation>, received: Received) -> Seq<FileOperation> {
    if flushes(batch + incoming(received), received) {
        Seq::empty()
    } else {
        batch + incoming(received)
    }
}

/// What the worker applies after `received`: the batch with the operation
/// that came, or nothing.
pub open spec fn flushed_after(batch: Seq<FileOperation>, received: Received) -> Seq<FileOperation> {
    if flushes(batch + incoming(received), received) {
        batch + incoming(received)
    } else {
        Seq::empty()
    }
}

/// How long the next receive may wait, in milliseconds: without limit
/// (`None`) while the batch is empty.
pub fn receive_timeout(batch: &Vec<FileOperation>) -> (timeout: Option<u64>)
    ensures
        timeout == if batch@.len() == 0 {
            None
        } else {
            Some(WAIT_MILLIS_FOR_NEXT_UPDATE_TO_BULK)
        },
{
    if batch.is_empty() {
        None
    } else {
        Some(WAIT_MILLIS_FOR_NEXT_UPDATE_TO_BULK)
    }
}

/// One turn of the worker: takes what the receive ended with and says what to
/// apply and whether to stop. No operation is lost: what came in is either
/// still in `batch` or handed out in `flush`, in the order it came.
pub fn subscribe_operations(batch: &mut Vec<FileOperation>, received: Received) -> (step: Step)
    ensures
        step.stop == (received is Disconnected),
        final(batch)@ == batch_after(old(batch)@, received),
        match step.flush {
            Some(flush) => flushes(old(batch)@ + incoming(received), received) && flush@
                == flushed_after(old(batch)@, received),
            None => !flushes(old(batch)@ + incoming(received), received),
        },
{
    let stop = match received {
        Received::Disconnected => true,
        _ => false,
    };
    let came = match received {
        Received::Operation(operation) => {
            batch.push(operation);
            true
        },
        _ => false,
    };
    assert(batch@ =~= old(batch)@ + incoming(received));
    let due = if came {
        batch.len() >= MAX_BULK_OPERATION_SIZE
    } else {
        batch.len() > 0
    };
    if due {
        let mut flush: Vec<FileOperation> = Vec::new();
        std::mem::swap(batch, &mut flush);
        Step { flush: Some(flush), stop }
    } else {
        Step { flush: None, stop }
    }
}

/// What an operation needs from the loader before it can be applied.
#[derive(Debug, Clone)]
pub enum LoadRequest {
    Nothing,
    File(String),
    Directory(String),
}

/// What the loader gave for a [`LoadRequest`].
#[derive(Debug)]
pub enum Loaded {
    Nothing,
    File(Result<File, LoadError>),
    Directory(Vec<Result<File, LoadError>>),
}

/// A [`LoadRequest`] over the characters of its path.
pub enum Wanted {
    Nothing,
    File(Seq<char>),
    Directory(Seq<char>),
}

impl View for LoadRequest {
    type V = Wanted;

    open spec fn view(&self) -> Wanted {
        match self {
            LoadRequest::Nothing => Wanted::Nothing,
            LoadRequest::File(path) => Wanted::File(path@),
            LoadRequest::Directory(path) => Wanted::Directory(path@),
        }
    }
}

/// What `change` needs loaded: the file of a creation, a modification or a
/// rename whose new path the filter accepts; the new directory of a directory
/// rename; nothing otherwise.
pub open spec fn wanted<F: FileFilter>(filter: &F, change: Change) -> Wanted {
    match change {
        Change::FileCreated(path) | Change::FileModified(path) => if filter.accepts(path) {
            Wanted::File(path)
        } else {
            Wanted::Nothing
        },
        Change::FileRenamed { old_path, new_path } => if filter.accepts(new_path) {
            Wanted::File(new_path)
        } else {
            Wanted::Nothing
        },
        Change::DirectoryRenamed { old_path, new_path } => Wanted::Directory(new_path),
        Change::FileDeleted(_) | Change::DirectoryDeleted(_) => Wanted::Nothing,
    }
}

/// Whether `loaded` is what `loader` may give for `request`: nothing where
/// nothing is asked for, else an answer of the loader for the path asked.
pub open spec fn answered<L: FileLoader>(loader: &L, request: Wanted, loaded: Loaded) -> bool {
    match request {
        Wanted::Nothing => loaded is Nothing,
        Wanted::File(path) => loaded matches Loaded::File(answer) && loader.may_load(path, answer),
        Wanted::Directory(path) => loaded matches Loaded::Directory(entries) && loader.may_list(
            path,
            entries@,
        ),
    }
}

/// The entries of a loaded directory; none where no directory was loaded.
pub open spec fn entries_of(loaded: Loaded) -> Seq<Result<File, LoadError>> {
    match loaded {
        Loaded::Directory(entries) => entries@,
        _ => Seq::empty(),
    }
}

/// `docs` with every entry added, in order, that loaded and whose own path
/// the filter accepts.
pub open spec fn with_accepted<F: FileFilter>(
    docs: Multiset<Doc>,
    filter: &F,
    entries: Seq<Result<File, LoadError>>,
) -> Multiset<Doc>
    decreases entries.len(),
{
    if entries.len() == 0 {
        docs
    } else {
        let rest = with_accepted(docs, filter, entries.drop_last());
        match entries.last() {
            Ok(file) => if filter.accepts(file.path@) {
                rest.insert(file@)
            } else {
                rest
            },
            Err(_) => rest,
        }
    }
}

/// Whether every entry that loaded and is accepted has a path short enough
/// to be indexed.
pub open spec fn entries_fit<F: FileFilter>(
    filter: &F,
    entries: Seq<Result<File, LoadError>>,
) -> bool {
    forall|i: int|
        0 <= i < entries.len() ==> ((#[trigger] entries[i]) matches Ok(file) ==> (filter.accepts(
            file.path@,
        ) ==> fits_term(file.path@)))
}

/// Whether every document that `change` is about to add has a path short
/// enough to be indexed.
pub open spec fn fits<F: FileFilter>(filter: &F, change: Change, loaded: Loaded) -> bool {
    match change {
        Change::FileCreated(path) | Change::FileModified(path) => match loaded {
            Loaded::File(Ok(file)) if filter.accepts(path) => fits_term(file.path@),
            _ => true,
        },
        Change::FileRenamed { old_path, new_path } => match loaded {
            Loaded::File(Ok(file)) if filter.accepts(new_path) => fits_term(file.path@),
            _ => true,
        },
        Change::DirectoryRenamed { old_path, new_path } => entries_fit(filter, entries_of(loaded)),
        _ => true,
    }
}

/// What a change of a single file makes of the staged documents `before`,
/// given what the loader returned for it. A file that did not load leaves the
/// operation without any effect. (A change of a directory is not decided
/// here and leaves `before`.)
pub open spec fn file_outcome<F: FileFilter>(
    filter: &F,
    change: Change,
    loaded: Loaded,
    before: Multiset<Doc>,
) -> Multiset<Doc> {
    match change {
        Change::FileCreated(path) => match loaded {
            Loaded::File(Ok(file)) if filter.accepts(path) => before.insert(file@),
            _ => before,
        },
        Change::FileModified(path) => match loaded {
            Loaded::File(Ok(file)) if filter.accepts(path) => without_path(
                before,
                file.path@,
            ).insert(file@),
            _ => before,
        },
        Change::FileDeleted(path) => without_path(before, path),
        Change::FileRenamed { old_path, new_path } => if filter.accepts(new_path) {
            match loaded {
                Loaded::File(Ok(file)) => if filter.accepts(old_path) {
                    without_path(before, old_path).insert(file@)
                } else {
                    before.insert(file@)
                },
                _ => before,
            }
        } else if filter.accepts(old_path) {
            without_path(before, old_path)
        } else {
            before
        },
        _ => before,
    }
}

/// Whether `after` is what `change` makes of the staged documents `before`,
/// given what the loader returned for it. A delete by prefix reaches what the
/// last commit, `committed`, knows.
pub open spec fn applied<F: FileFilter>(
    filter: &F,
    change: Change,
    loaded: Loaded,
    before: Multiset<Doc>,
    committed: Multiset<Doc>,
    after: Multiset<Doc>,
) -> bool {
    match change {
        Change::DirectoryDeleted(path) => prefix_removed(before, committed, path, after),
        Change::DirectoryRenamed { old_path, new_path } => moved(
            filter,
            old_path,
            entries_of(loaded),
            before,
            committed,
            after,
        ),
        _ => after == file_outcome(filter, change, loaded, before),
    }
}

/// Whether `after` is `before` with a delete by the prefix `old_path` and then
/// the accepted `entries` added.
pub open spec fn moved<F: FileFilter>(
    filter: &F,
    old_path: Seq<char>,
    entries: Seq<Result<File, LoadError>>,
    before: Multiset<Doc>,
    committed: Multiset<Doc>,
    after: Multiset<Doc>,
) -> bool {
    exists|between: Multiset<Doc>|
        #![trigger prefix_removed(before, committed, old_path, between)]
        prefix_removed(before, committed, old_path, between) && after == with_accepted(
            between,
            filter,
            entries,
        )
}

/// What `change` makes of the staged documents `before` when a delete by
/// prefix reaches every document under the prefix.
pub open spec fn outcome<F: FileFilter>(
    filter: &F,
    change: Change,
    loaded: Loaded,
    before: Multiset<Doc>,
) -> Multiset<Doc> {
    match change {
        Change::DirectoryDeleted(path) => without_prefix(before, path),
        Change::DirectoryRenamed { old_path, new_path } => with_accepted(
            without_prefix(before, old_path),
            filter,
            entries_of(loaded),
        ),
        _ => file_outcome(filter, change, loaded, before),
    }
}

/// What the changes, applied in order with the loads at the same places,
/// make of `before` when every delete by prefix is complete.
pub open spec fn outcomes<F: FileFilter>(
    filter: &F,
    changes: Seq<Change>,
    loads: Seq<Loaded>,
    before: Multiset<Doc>,
) -> Multiset<Doc>
    decreases changes.len(),
{
    if changes.len() == 0 || loads.len() != changes.len() {
        before
    } else {
        outcome(
            filter,
            changes.last(),
            loads.last(),
            outcomes(filter, changes.drop_last(), loads.drop_last(), before),
        )
    }
}

/// Whether applying `change` asks anything of the engine: it does not where
/// the filter keeps the change out or the file it needs did not load.
pub open spec fn asks_engine<F: FileFilter>(filter: &F, change: Change, loaded: Loaded) -> bool {
    match change {
        Change::FileCreated(path) | Change::FileModified(path) => filter.accepts(path)
            && loaded matches Loaded::File(Ok(_)),
        Change::FileRenamed { old_path, new_path } => if filter.accepts(new_path) {
            loaded matches Loaded::File(Ok(_))
        } else {
            filter.accepts(old_path)
        },
        _ => true,
    }
}

/// Whether `change` is kept out by the filter whatever the loader says: a
/// creation or a modification of a rejected path, a rename between two
/// rejected paths.
pub open spec fn idle<F: FileFilter>(filter: &F, change: Change) -> bool {
    match change {
        Change::FileCreated(path) | Change::FileModified(path) => !filter.accepts(path),
        Change::FileRenamed { old_path, new_path } => !filter.accepts(old_path) && !filter.accepts(
            new_path,
        ),
        _ => false,
    }
}

/// Whether none of the entries loaded and is accepted.
pub open spec fn none_accepted<F: FileFilter>(
    filter: &F,
    entries: Seq<Result<File, LoadError>>,
) -> bool {
    forall|i: int|
        0 <= i < entries.len() ==> ((#[trigger] entries[i]) matches Ok(file) ==> !filter.accepts(
            file.path@,
        ))
}

/// What `operation` needs from the loader.
pub fn load_request<F: FileFilter>(filter: &F, operation: &FileOperation) -> (request: LoadRequest)
    ensures
        request@ == wanted(filter, operation@),
{
    match operation {
        FileOperation::FileCreated(path) | FileOperation::FileModified(path) => {
            if filter.is_target(path.as_str()) {
                LoadRequest::File(path.clone())
            } else {
                LoadRequest::Nothing
            }
        },
        FileOperation::FileRenamed { old_path: _, new_path } => {
            if filter.is_target(new_path.as_str()) {
                LoadRequest::File(new_path.clone())
            } else {
                LoadRequest::Nothing
            }
        },
        FileOperation::DirectoryRenamed { old_path: _, new_path } => LoadRequest::Directory(
            new_path.clone(),
        ),
        FileOperation::FileDeleted(_) | FileOperation::DirectoryDeleted(_) => LoadRequest::Nothing,
    }
}

/// Asks the loader for what `request` names. The answer is the loader's.
pub fn load<L: FileLoader>(loader: &L, request: &LoadRequest) -> (loaded: Loaded)
    ensures
        answered(loader, request@, loaded),
{
    match request {
        LoadRequest::Nothing => Loaded::Nothing,
        LoadRequest::File(path) => Loaded::File(loader.load_file(path.as_str())),
        LoadRequest::Directory(path) => Loaded::Directory(loader.load_directory(path.as_str())),
    }
}

/// Whether every entry that loaded and is accepted has a path short enough
/// to be indexed.
pub fn check_entries<F: FileFilter>(filter: &F, entries: &Vec<Result<File, LoadError>>) -> (fit:
    bool)
    ensures
        fit == entries_fit(filter, entries@),
{
    let mut i: usize = 0;
    while i < entries.len()
        invariant
            i <= entries.len(),
            entries_fit(filter, entries@.take(i as int)),
        decreases entries.len() - i,
    {
        match &entries[i] {
            Ok(file) => {
                if filter.is_target(file.path.as_str()) && !TextIndex::fits(file.path.as_str()) {
                    return false;
                }
            },
            Err(_) => {},
        }
        assert forall|j: int| 0 <= j < i + 1 implies ((#[trigger] entries@.take(i + 1)[j]) matches Ok(
            file,
        ) ==> (filter.accepts(file.path@) ==> fits_term(file.path@))) by {
            if j < i {
                assert(entries@.take(i as int)[j] == entries@.take(i + 1)[j]);
            }
        }
        i += 1;
    }
    assert(entries@.take(entries.len() as int) =~= entries@);
    true
}

/// Stages every entry that loaded and whose own path the filter accepts.
fn stage_entries<F: FileFilter>(
    index: &mut TextIndex,
    filter: &F,
    entries: &Vec<Result<File, LoadError>>,
) -> (r: Result<(), IndexError>)
    requires
        entries_fit(filter, entries@),
    ensures
        final(index).searches_as(old(index)),
        final(index).committed() == old(index).committed(),
        match r {
            Ok(_) => final(index).staged() == with_accepted(old(index).staged(), filter, entries@),
            Err(e) => e is Engine,
        },
        none_accepted(filter, entries@) ==> {
            &&& r is Ok
            &&& final(index).staged() == old(index).staged()
            &&& final(index).pending() == old(index).pending()
        },
        r is Ok && old(index).settled() ==> final(index).settled(),
{
    let mut i: usize = 0;
    while i < entries.len()
        invariant
            i <= entries.len(),
            entries_fit(filter, entries@),
            none_accepted(filter, entries@) ==> {
                &&& index.staged() == old(index).staged()
                &&& index.pending() == old(index).pending()
            },
            index.searches_as(old(index)),
            index.committed() == old(index).committed(),
            index.staged() == with_accepted(old(index).staged(), filter, entries@.take(i as int)),
            old(index).settled() ==> index.settled(),
        decreases entries.len() - i,
    {
        assert(entries@.take(i + 1).drop_last() =~= entries@.take(i as int));
        match &entries[i] {
            Ok(file) => {
                if filter.is_target(file.path.as_str()) {
                    match index.add_doc(file) {
                        Ok(_) => {},
                        Err(e) => {
                            return Err(e);
                        },
                    }
                }
            },
            Err(_) => {},
        }
        i += 1;
    }
    assert(entries@.take(entries.len() as int) =~= entries@);
    Ok(())
}

/// Stages every entry that loaded and whose own path the filter accepts.
/// Where one of them has a path too long to be indexed, nothing is staged.
/// Where none is accepted, the engine is not asked and nothing can fail.
pub fn index_entries<F: FileFilter>(
    index: &mut TextIndex,
    filter: &F,
    entries: &Vec<Result<File, LoadError>>,
) -> (r: Result<(), IndexError>)
    ensures
        final(index).searches_as(old(index)),
        final(index).committed() == old(index).committed(),
        !entries_fit(filter, entries@) ==> {
            &&& r == Err::<(), IndexError>(IndexError::PathTooLong)
            &&& final(index).staged() == old(index).staged()
            &&& final(index).pending() == old(index).pending()
        },
        entries_fit(filter, entries@) ==> match r {
            Ok(_) => final(index).staged() == with_accepted(old(index).staged(), filter, entries@),
            Err(e) => e is Engine,
        },
        none_accepted(filter, entries@) ==> {
            &&& r is Ok
            &&& final(index).staged() == old(index).staged()
            &&& final(index).pending() == old(index).pending()
        },
        r is Ok && old(index).settled() ==> final(index).settled(),
{
    if !check_entries(filter, entries) {
        return Err(IndexError::PathTooLong);
    }
    stage_entries(index, filter, entries)
}

/// Applies one operation to the index, with what the loader returned for it.
/// Nothing is committed. Where the operation would add a document whose path
/// is too long to be indexed, nothing is done at all. Where the filter keeps
/// the operation out, or its file did not load, the engine is not asked and
/// nothing can fail. On a settled index a delete by prefix reaches every
/// document under the prefix.
pub fn apply_operation<F: FileFilter>(
    index: &mut TextIndex,
    filter: &F,
    operation: &FileOperation,
    loaded: &Loaded,
) -> (r: Result<(), IndexError>)
    ensures
        final(index).searches_as(old(index)),
        final(index).committed() == old(index).committed(),
        !fits(filter, operation@, *loaded) ==> {
            &&& r == Err::<(), IndexError>(IndexError::PathTooLong)
            &&& final(index).staged() == old(index).staged()
            &&& final(index).pending() == old(index).pending()
        },
        fits(filter, operation@, *loaded) ==> match r {
            Ok(_) => {
                &&& applied(
                    filter,
                    operation@,
                    *loaded,
                    old(index).staged(),
                    old(index).committed(),
                    final(index).staged(),
                )
                &&& old(index).settled() ==> final(index).staged() == outcome(
                    filter,
                    operation@,
                    *loaded,
                    old(index).staged(),
                )
            },
            Err(e) => e is Engine,
        },
        fits(filter, operation@, *loaded) && !asks_engine(filter, operation@, *loaded) ==> {
            &&& r is Ok
            &&& final(index).staged() == old(index).staged()
            &&& final(index).pending() == old(index).pending()
        },
        r is Ok && old(index).settled() ==> final(index).settled(),
{
    match operation {
        FileOperation::FileCreated(path) => {
            if filter.is_target(path.as_str()) {
                if let Loaded::File(Ok(file)) = loaded {
                    return index.add_doc(file);
                }
            }
            Ok(())
        },
        FileOperation::FileModified(path) => {
            if filter.is_target(path.as_str()) {
                if let Loaded::File(Ok(file)) = loaded {
                    return index.replace_doc(file);
                }
            }
            Ok(())
        },
        FileOperation::FileDeleted(path) => index.delete_doc(path.as_str()),
        FileOperation::FileRenamed { old_path, new_path } => {
            let old_is_target = filter.is_target(old_path.as_str());
            if filter.is_target(new_path.as_str()) {
                if let Loaded::File(Ok(file)) = loaded {
                    if !TextIndex::fits(file.path.as_str()) {
                        return Err(IndexError::PathTooLong);
                    }
                    if old_is_target {
                        match index.delete_doc(old_path.as_str()) {
                            Ok(_) => {},
                            Err(e) => {
                                return Err(e);
                            },
                        }
                    }
                    return index.add_doc(file);
                }
                Ok(())
            } else if old_is_target {
                index.delete_doc(old_path.as_str())
            } else {
                Ok(())
            }
        },
        FileOperation::DirectoryDeleted(path) => {
            match index.delete_docs_by_path_prefix(path.as_str()) {
                Ok(_) => {
                    assert(prefix_removed(
                        old(index).staged(),
                        old(index).committed(),
                        path@,
                        index.staged(),
                    ));
                    Ok(())
                },
                Err(e) => Err(e),
            }
        },
        FileOperation::DirectoryRenamed { old_path, new_path } => {
            if let Loaded::Directory(entries) = loaded {
                if !check_entries(filter, entries) {
                    return Err(IndexError::PathTooLong);
                }
            }
            match index.delete_docs_by_path_prefix(old_path.as_str()) {
                Ok(_) => {},
                Err(e) => {
                    return Err(e);
                },
            }
            let ghost between = index.staged();
            let r = match loaded {
                Loaded::Directory(entries) => stage_entries(index, filter, entries),
                _ => Ok(()),
            };
            proof {
                if r is Ok {
                    assert(prefix_removed(
                        old(index).staged(),
                        old(index).committed(),
                        old_path@,
                        between,
                    ));
                    assert(index.staged() == with_accepted(between, filter, entries_of(*loaded)));
                    assert(operation@ == Change::DirectoryRenamed {
                        old_path: old_path@,
                        new_path: new_path@,
                    });
                    assert(moved(
                        filter,
                        old_path@,
                        entries_of(*loaded),
                        old(index).staged(),
                        old(index).committed(),
                        index.staged(),
                    ));
                    assert(applied(
                        filter,
                        operation@,
                        *loaded,
                        old(index).staged(),
                        old(index).committed(),
                        index.staged(),
                    ));
                }
            }
            r
        },
    }
}

/// The errors of the files that did not load, in the order of `loads`.
pub open spec fn load_failures(loads: Seq<Loaded>) -> Seq<LoadError>
    decreases loads.len(),
{
    if loads.len() == 0 {
        Seq::empty()
    } else {
        let rest = load_failures(loads.drop_last());
        match loads.last() {
            Loaded::File(Err(e)) => rest.push(e),
            _ => rest,
        }
    }
}

/// Whether `states` are the staged documents before, between and after the
/// operations when they are applied in order, the operation at each place
/// with the load at the same place, and each load is what the loader may
/// give for what its operation asks.
pub open spec fn batch_trace<F: FileFilter, L: FileLoader>(
    filter: &F,
    loader: &L,
    operations: Seq<FileOperation>,
    loads: Seq<Loaded>,
    committed: Multiset<Doc>,
    states: Seq<Multiset<Doc>>,
) -> bool {
    &&& loads.len() == operations.len()
    &&& states.len() == operations.len() + 1
    &&& forall|i: int|
        #![trigger loads[i]]
        0 <= i < operations.len() ==> answered(
            loader,
            wanted(filter, operations[i]@),
            loads[i],
        ) && applied(
            filter,
            operations[i]@,
            loads[i],
            states[i],
            committed,
            states[i + 1],
        )
}

/// Whether the operations, with some loads that the loader may give, lead
/// from `before` to `after` and leave `failures` as the errors of the files
/// that did not load. Where `complete` is set, every delete by prefix among
/// them reached all that lay under its prefix.
pub open spec fn batch_applied<F: FileFilter, L: FileLoader>(
    filter: &F,
    loader: &L,
    operations: Seq<FileOperation>,
    before: Multiset<Doc>,
    committed: Multiset<Doc>,
    complete: bool,
    after: Multiset<Doc>,
    failures: Seq<LoadError>,
) -> bool {
    exists|loads: Seq<Loaded>, states: Seq<Multiset<Doc>>|
        #![trigger batch_trace(filter, loader, operations, loads, committed, states)]
        {
            &&& batch_trace(filter, loader, operations, loads, committed, states)
            &&& states.first() == before
            &&& states.last() == after
            &&& failures == load_failures(loads)
            &&& complete ==> after == outcomes(filter, views(operations), loads, before)
        }
}

/// Whether the filter keeps every one of the operations out, whatever the
/// loader says.
pub open spec fn all_idle<F: FileFilter>(filter: &F, operations: Seq<FileOperation>) -> bool {
    forall|i: int| 0 <= i < operations.len() ==> idle(filter, (#[trigger] operations[i])@)
}

/// Whether the loader stores every file under the path it was asked for.
pub open spec fn faithful<L: FileLoader>(loader: &L) -> bool {
    forall|path: Seq<char>, answer: Result<File, LoadError>| #[trigger]
        loader.may_load(path, answer) ==> (answer matches Ok(file) ==> file.path@ == path)
}

/// Applies a batch: each operation in order, loading what it needs just
/// before it is applied, then one commit. A file that does not load leaves
/// its operation out and the batch goes on; the errors of such files are
/// returned. The first error of the index ends the batch without a commit.
/// Where the filter keeps every operation out and nothing was pending, the
/// engine is not asked and nothing can fail.
pub fn process_operations<F: FileFilter, L: FileLoader>(
    index: &mut TextIndex,
    filter: &F,
    loader: &L,
    operations: &Vec<FileOperation>,
) -> (r: Result<Vec<LoadError>, IndexError>)
    ensures
        r matches Err(e) ==> {
            &&& e is Engine || e is PathTooLong
            &&& final(index).searches_as(old(index))
        },
        r matches Ok(failures) ==> {
            &&& final(index).pending() == 0
            &&& old(index).settled() ==> final(index).up_to_date() && final(index).settled()
            &&& batch_applied(
                filter,
                loader,
                operations@,
                old(index).staged(),
                old(index).committed(),
                old(index).settled(),
                final(index).staged(),
                failures@,
            )
            &&& compliant(filter, old(index).staged()) && faithful(loader) ==> compliant(
                filter,
                final(index).staged(),
            )
        },
        all_idle(filter, operations@) && old(index).pending() == 0 ==> {
            &&& r matches Ok(failures) && failures@.len() == 0
            &&& final(index).staged() == old(index).staged()
            &&& final(index).committed() == old(index).committed()
            &&& final(index).searches_as(old(index))
        },
{
    let mut failures: Vec<LoadError> = Vec::new();
    let ghost mut loads: Seq<Loaded> = Seq::empty();
    let ghost mut states: Seq<Multiset<Doc>> = seq![index.staged()];
    let mut i: usize = 0;
    proof {
        assert(views(operations@.take(0)) =~= Seq::<Change>::empty());
    }
    while i < operations.len()
        invariant
            i <= operations.len(),
            index.searches_as(old(index)),
            index.committed() == old(index).committed(),
            old(index).settled() ==> index.settled(),
            batch_trace(
                filter,
                loader,
                operations@.take(i as int),
                loads,
                old(index).committed(),
                states,
            ),
            states.first() == old(index).staged(),
            states.last() == index.staged(),
            failures@ == load_failures(loads),
            old(index).settled() ==> index.staged() == outcomes(
                filter,
                views(operations@.take(i as int)),
                loads,
                old(index).staged(),
            ),
            all_idle(filter, operations@) ==> {
                &&& index.staged() == old(index).staged()
                &&& index.pending() == old(index).pending()
                &&& failures@.len() == 0
            },
        decreases operations.len() - i,
    {
        let request = load_request(filter, &operations[i]);
        let loaded = load(loader, &request);
        let ghost was = index.staged();
        let ghost was_settled = index.settled();
        assert(all_idle(filter, operations@) ==> idle(filter, operations@[i as int]@));
        match apply_operation(index, filter, &operations[i], &loaded) {
            Ok(_) => {},
            Err(e) => {
                return Err(e);
            },
        }
        proof {
            let more = loads.push(loaded);
            assert(more.drop_last() =~= loads);
            let further = states.push(index.staged());
            let shorter = operations@.take(i as int);
            let longer = operations@.take(i + 1);
            assert(longer.drop_last() =~= shorter);
            assert(longer.last() == operations@[i as int]);
            assert forall|j: int| 0 <= j < longer.len() implies answered(
                loader,
                wanted(filter, longer[j]@),
                #[trigger] more[j],
            ) && applied(
                filter,
                longer[j]@,
                more[j],
                further[j],
                old(index).committed(),
                further[j + 1],
            ) by {
                if j < i {
                    assert(longer[j] == shorter[j]);
                    assert(more[j] == loads[j]);
                }
            }
            if old(index).settled() {
                assert(views(longer).drop_last() =~= views(shorter));
                assert(views(longer).last() == operations@[i as int]@);
                assert(more.last() == loaded);
                assert(index.staged() == outcome(filter, operations@[i as int]@, loaded, was));
            }
            loads = more;
            states = further;
        }
        match loaded {
            Loaded::File(Err(e)) => {
                failures.push(e);
            },
            _ => {},
        }
        i += 1;
    }
    assert(operations@.take(operations.len() as int) =~= operations@);
    proof {
        if compliant(filter, old(index).staged()) && faithful(loader) {
            assert forall|j: int| 0 <= j < operations@.len() implies loaded_as_asked(
                filter,
                operations@[j]@,
                #[trigger] loads[j],
            ) by {
                assert(answered(loader, wanted(filter, operations@[j]@), loads[j]));
            }
            lemma_batch_filter_compliance(
                filter,
                loader,
                operations@,
                loads,
                old(index).committed(),
                states,
            );
            assert(compliant(filter, states[operations@.len() as int]));
        }
    }
    match index.commit() {
        Ok(_) => Ok(failures),
        Err(e) => Err(e),
    }
}

/// Whether `after` and `r` are what the first scan makes of the index
/// `before` when the loader lists `entries`: on success every accepted entry
/// is staged and everything is committed; a path too long to be indexed is
/// refused with nothing staged; any other failure is the engine's, which is
/// not asked where no entry is accepted and nothing was pending.
pub open spec fn scanned<F: FileFilter>(
    filter: &F,
    entries: Seq<Result<File, LoadError>>,
    before: &TextIndex,
    after: &TextIndex,
    r: Result<(), IndexError>,
) -> bool {
    match r {
        Ok(_) => {
            &&& entries_fit(filter, entries)
            &&& after.staged() == with_accepted(before.staged(), filter, entries)
            &&& after.pending() == 0
            &&& before.settled() ==> after.up_to_date() && after.settled()
        },
        Err(e) => {
            &&& after.searches_as(before)
            &&& if entries_fit(filter, entries) {
                e is Engine && !(none_accepted(filter, entries) && before.pending() == 0)
            } else {
                &&& e is PathTooLong
                &&& after.staged() == before.staged()
                &&& after.pending() == before.pending()
            }
        },
    }
}

/// The first scan: stages every file that the loader lists under
/// `target_dir` and whose path the filter accepts, then commits. Files that
/// do not load are left out; a path too long to be indexed ends the scan
/// with nothing staged.
pub fn initialize_index<F: FileFilter, L: FileLoader>(
    index: &mut TextIndex,
    target_dir: &str,
    filter: &F,
    loader: &L,
) -> (r: Result<(), IndexError>)
    ensures
        exists|entries: Seq<Result<File, LoadError>>|
            #![trigger loader.may_list(target_dir@, entries)]
            loader.may_list(target_dir@, entries) && scanned(
                filter,
                entries,
                old(index),
                final(index),
                r,
            ),
        r is Ok && compliant(filter, old(index).staged()) ==> compliant(
            filter,
            final(index).staged(),
        ),
{
    let entries = loader.load_directory(target_dir);
    let staged = index_entries(index, filter, &entries);
    let r = match staged {
        Ok(_) => index.commit(),
        Err(e) => Err(e),
    };
    proof {
        if compliant(filter, old(index).staged()) {
            lemma_accepted_entries_comply(filter, old(index).staged(), entries@);
        }
        assert(scanned(filter, entries@, old(index), index, r));
    }
    r
}

} // verus!
