//! What an operation does to the documents it touches: the filter is kept,
//! a rename moves a document, a deleted directory leaves nothing behind.
//! Each law is stated over the staged documents before and after; a commit
//! that succeeds makes the staged documents the visible ones.

use crate::search::file::{Change, File, FileFilter, FileLoader, FileOperation, LoadError};
use crate::search::index_operation::{
    applied, batch_trace, entries_of, outcome, wanted, with_accepted, Loaded, Wanted,
};
use crate::search::model::{
    has_path, lemma_insert, lemma_without_path, none_under, prefix_removed, without_path, Doc,
};
use vstd::multiset::Multiset;
use vstd::prelude::*;

verus! {

/// Whether the filter accepts the path of every document of `docs`.
pub open spec fn compliant<F: FileFilter>(filter: &F, docs: Multiset<Doc>) -> bool {
    forall|d: Doc| #[trigger] docs.contains(d) ==> filter.accepts(d.0)
}

/// Whether a file that was loaded for `change` is stored under the path that
/// was asked for.
pub open spec fn loaded_as_asked<F: FileFilter>(filter: &F, change: Change, loaded: Loaded) -> bool {
    match (wanted(filter, change), loaded) {
        (Wanted::File(path), Loaded::File(Ok(file))) => file.path@ == path,
        _ => true,
    }
}

/// Whether every document of `docs` whose path begins with `prefix` has a
/// path that the last commit, `committed`, knows.
pub open spec fn known_under(docs: Multiset<Doc>, committed: Multiset<Doc>, prefix: Seq<char>) -> bool {
    forall|d: Doc| #[trigger] docs.contains(d) && prefix.is_prefix_of(d.0) ==> has_path(committed, d.0)
}

/// Adding the accepted entries of a directory keeps the documents within the
/// filter.
pub proof fn lemma_accepted_entries_comply<F: FileFilter>(
    filter: &F,
    docs: Multiset<Doc>,
    entries: Seq<Result<File, LoadError>>,
)
    requires
        compliant(filter, docs),
    ensures
        compliant(filter, with_accepted(docs, filter, entries)),
    decreases entries.len(),
{
    broadcast use vstd::multiset::group_multiset_axioms;

    if entries.len() > 0 {
        lemma_accepted_entries_comply(filter, docs, entries.drop_last());
        let rest = with_accepted(docs, filter, entries.drop_last());
        if let Ok(file) = entries.last() {
            lemma_insert(rest, file@);
        }
    }
}

/// Where every staged document passes the filter, it still does after any
/// operation, as long as the loader stores a file under the path it was
/// asked for.
pub proof fn lemma_filter_compliance<F: FileFilter>(
    filter: &F,
    change: Change,
    loaded: Loaded,
    before: Multiset<Doc>,
    committed: Multiset<Doc>,
    after: Multiset<Doc>,
)
    requires
        compliant(filter, before),
        loaded_as_asked(filter, change, loaded),
        applied(filter, change, loaded, before, committed, after),
    ensures
        compliant(filter, after),
{
    broadcast use vstd::multiset::group_multiset_axioms;

    match change {
        Change::FileCreated(path) => {
            if let Loaded::File(Ok(file)) = loaded {
                lemma_insert(before, file@);
            }
        },
        Change::FileModified(path) => {
            if let Loaded::File(Ok(file)) = loaded {
                lemma_without_path(before, file.path@);
                lemma_insert(without_path(before, file.path@), file@);
            }
        },
        Change::FileDeleted(path) => {
            lemma_without_path(before, path);
        },
        Change::FileRenamed { old_path, new_path } => {
            lemma_without_path(before, old_path);
            if let Loaded::File(Ok(file)) = loaded {
                lemma_insert(before, file@);
                lemma_insert(without_path(before, old_path), file@);
            }
        },
        Change::DirectoryRenamed { old_path, new_path } => {
            let between = choose|between: Multiset<Doc>|
                #![trigger prefix_removed(before, committed, old_path, between)]
                prefix_removed(before, committed, old_path, between) && after == with_accepted(
                    between,
                    filter,
                    entries_of(loaded),
                );
            assert forall|d: Doc| #[trigger] between.contains(d) implies filter.accepts(d.0) by {
                assert(before.contains(d));
            }
            lemma_accepted_entries_comply(filter, between, entries_of(loaded));
        },
        Change::DirectoryDeleted(path) => {
            assert forall|d: Doc| #[trigger] after.contains(d) implies filter.accepts(d.0) by {
                assert(before.contains(d));
            }
        },
    }
}

/// Where every staged document passes the filter before a batch, every
/// staged document passes it after each operation of the batch, as long as
/// the loader stores each file under the path it was asked for.
pub proof fn lemma_batch_filter_compliance<F: FileFilter, L: FileLoader>(
    filter: &F,
    loader: &L,
    operations: Seq<FileOperation>,
    loads: Seq<Loaded>,
    committed: Multiset<Doc>,
    states: Seq<Multiset<Doc>>,
)
    requires
        batch_trace(filter, loader, operations, loads, committed, states),
        compliant(filter, states.first()),
        forall|i: int|
            0 <= i < operations.len() ==> loaded_as_asked(
                filter,
                operations[i]@,
                #[trigger] loads[i],
            ),
    ensures
        forall|i: int| 0 <= i <= operations.len() ==> compliant(filter, #[trigger] states[i]),
{
    assert forall|i: int| 0 <= i <= operations.len() implies compliant(
        filter,
        #[trigger] states[i],
    ) by {
        lemma_compliant_up_to(filter, loader, operations, loads, committed, states, i);
    }
}

proof fn lemma_compliant_up_to<F: FileFilter, L: FileLoader>(
    filter: &F,
    loader: &L,
    operations: Seq<FileOperation>,
    loads: Seq<Loaded>,
    committed: Multiset<Doc>,
    states: Seq<Multiset<Doc>>,
    upto: int,
)
    requires
        batch_trace(filter, loader, operations, loads, committed, states),
        compliant(filter, states.first()),
        forall|i: int|
            0 <= i < operations.len() ==> loaded_as_asked(
                filter,
                operations[i]@,
                #[trigger] loads[i],
            ),
        0 <= upto <= operations.len(),
    ensures
        compliant(filter, states[upto]),
    decreases upto,
{
    if upto > 0 {
        lemma_compliant_up_to(filter, loader, operations, loads, committed, states, upto - 1);
        let i = upto - 1;
        assert(loaded_as_asked(filter, operations[i]@, loads[i]));
        lemma_filter_compliance(
            filter,
            operations[i]@,
            loads[i],
            states[i],
            committed,
            states[i + 1],
        );
    }
}

/// After a file is renamed from one accepted path to another, and the file
/// at the new path loads, a document with the loaded content is staged at
/// the new path and none is left at the old one.
pub proof fn lemma_rename_preservation<F: FileFilter>(
    filter: &F,
    old_path: Seq<char>,
    new_path: Seq<char>,
    file: File,
    before: Multiset<Doc>,
    committed: Multiset<Doc>,
    after: Multiset<Doc>,
)
    requires
        filter.accepts(old_path),
        filter.accepts(new_path),
        old_path != new_path,
        file.path@ == new_path,
        applied(
            filter,
            Change::FileRenamed { old_path, new_path },
            Loaded::File(Ok(file)),
            before,
            committed,
            after,
        ),
    ensures
        after.contains((new_path, file.content@)),
        !has_path(after, old_path),
{
    let between = without_path(before, old_path);
    lemma_without_path(before, old_path);
    lemma_insert(between, file@);
    assert(after == between.insert(file@));
    assert forall|d: Doc| #[trigger] after.contains(d) implies d.0 != old_path by {
        if d != file@ {
            assert(between.contains(d));
        }
    }
}

/// After a directory is deleted from a settled index, where the delete
/// reaches every document under the prefix, no staged document has a path
/// that begins with the directory's.
pub proof fn lemma_prefix_delete_complete<F: FileFilter>(
    filter: &F,
    path: Seq<char>,
    loaded: Loaded,
    before: Multiset<Doc>,
)
    ensures
        none_under(outcome(filter, Change::DirectoryDeleted(path), loaded, before), path),
{
    broadcast use vstd::multiset::group_multiset_axioms;

}

/// After a directory is deleted, no staged document has a path that begins
/// with the directory's, provided the last commit knows the path of every
/// staged document that does.
pub proof fn lemma_prefix_delete<F: FileFilter>(
    filter: &F,
    path: Seq<char>,
    loaded: Loaded,
    before: Multiset<Doc>,
    committed: Multiset<Doc>,
    after: Multiset<Doc>,
)
    requires
        known_under(before, committed, path),
        applied(filter, Change::DirectoryDeleted(path), loaded, before, committed, after),
    ensures
        none_under(after, path),
{
    broadcast use vstd::multiset::group_multiset_axioms;

    assert forall|d: Doc| #[trigger] after.contains(d) implies !path.is_prefix_of(d.0) by {
        if path.is_prefix_of(d.0) {
            assert(after.count(d) == before.count(d) || after.count(d) == 0);
            assert(before.contains(d));
        }
    }
}

} // verus!
