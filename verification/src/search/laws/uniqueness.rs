//! No two documents share a path, as long as no operation adds a document
//! under a path that is still taken.

use crate::search::file::{Change, File, FileFilter, FileLoader, FileOperation, LoadError};
use crate::search::index_operation::{
    applied, batch_trace, entries_of, with_accepted, Loaded,
};
use crate::search::model::{
    has_path, lemma_insert, lemma_without_path, prefix_removed, unique_paths, without_path, Doc,
};
use vstd::multiset::Multiset;
use vstd::prelude::*;

verus! {

/// Whether each accepted entry, at the time it is added to `docs` in its
/// turn, brings a path that no document holds yet.
pub open spec fn fresh_entries<F: FileFilter>(
    filter: &F,
    docs: Multiset<Doc>,
    entries: Seq<Result<File, LoadError>>,
) -> bool
    decreases entries.len(),
{
    if entries.len() == 0 {
        true
    } else {
        &&& fresh_entries(filter, docs, entries.drop_last())
        &&& match entries.last() {
            Ok(file) => filter.accepts(file.path@) ==> !has_path(
                with_accepted(docs, filter, entries.drop_last()),
                file.path@,
            ),
            Err(_) => true,
        }
    }
}

/// Whether `change` adds no document under a path that is still taken: the
/// file of a creation or of a rename comes to a free path, and so does every
/// file of a renamed directory.
pub open spec fn adds_fresh<F: FileFilter>(
    filter: &F,
    change: Change,
    loaded: Loaded,
    before: Multiset<Doc>,
) -> bool {
    match change {
        Change::FileCreated(path) => match loaded {
            Loaded::File(Ok(file)) if filter.accepts(path) => !has_path(before, file.path@),
            _ => true,
        },
        Change::FileRenamed { old_path, new_path } => match loaded {
            Loaded::File(Ok(file)) if filter.accepts(new_path) => !has_path(
                if filter.accepts(old_path) {
                    without_path(before, old_path)
                } else {
                    before
                },
                file.path@,
            ),
            _ => true,
        },
        Change::DirectoryRenamed { old_path, new_path } => fresh_entries(
            filter,
            before,
            entries_of(loaded),
        ),
        _ => true,
    }
}

/// One more document under a free path keeps the paths unique.
pub proof fn lemma_unique_insert(docs: Multiset<Doc>, doc: Doc)
    requires
        unique_paths(docs),
        !has_path(docs, doc.0),
    ensures
        unique_paths(docs.insert(doc)),
{
    lemma_insert(docs, doc);
    let more = docs.insert(doc);
    assert forall|a: Doc, b: Doc|
        #![trigger more.contains(a), more.contains(b)]
        more.contains(a) && more.contains(b) && a.0 == b.0 implies a == b && more.count(a)
        == 1 by {
        if a == doc {
            assert(!docs.contains(doc));
            if b != doc {
                assert(docs.contains(b));
            }
        } else {
            assert(docs.contains(a));
            if b == doc {
            } else {
                assert(docs.contains(b));
            }
        }
    }
}

/// Taking documents away, each with all its copies, keeps the paths unique.
pub proof fn lemma_unique_remainder(before: Multiset<Doc>, after: Multiset<Doc>)
    requires
        unique_paths(before),
        forall|d: Doc| #[trigger] after.count(d) == before.count(d) || after.count(d) == 0,
    ensures
        unique_paths(after),
        forall|path: Seq<char>| has_path(after, path) ==> has_path(before, path),
{
    assert forall|a: Doc, b: Doc|
        #![trigger after.contains(a), after.contains(b)]
        after.contains(a) && after.contains(b) && a.0 == b.0 implies a == b && after.count(a)
        == 1 by {
        assert(after.count(a) == before.count(a) || after.count(a) == 0);
        assert(after.count(b) == before.count(b) || after.count(b) == 0);
        assert(before.contains(a) && before.contains(b));
    }
    assert forall|path: Seq<char>| has_path(after, path) implies has_path(before, path) by {
        let d = choose|d: Doc| #[trigger] after.contains(d) && d.0 == path;
        assert(after.count(d) == before.count(d) || after.count(d) == 0);
        assert(before.contains(d));
    }
}

/// More documents to begin with leave no fewer after the same entries.
pub proof fn lemma_accepted_entries_grow<F: FileFilter>(
    filter: &F,
    fewer: Multiset<Doc>,
    more: Multiset<Doc>,
    entries: Seq<Result<File, LoadError>>,
)
    requires
        forall|d: Doc| #[trigger] fewer.contains(d) ==> more.contains(d),
    ensures
        forall|d: Doc| #[trigger]
            with_accepted(fewer, filter, entries).contains(d) ==> with_accepted(
                more,
                filter,
                entries,
            ).contains(d),
    decreases entries.len(),
{
    if entries.len() > 0 {
        lemma_accepted_entries_grow(filter, fewer, more, entries.drop_last());
        if let Ok(file) = entries.last() {
            lemma_insert(with_accepted(fewer, filter, entries.drop_last()), file@);
            lemma_insert(with_accepted(more, filter, entries.drop_last()), file@);
        }
    }
}

/// Entries that are fresh for more documents are fresh for fewer, and adding
/// them keeps the paths unique.
pub proof fn lemma_unique_entries<F: FileFilter>(
    filter: &F,
    fewer: Multiset<Doc>,
    more: Multiset<Doc>,
    entries: Seq<Result<File, LoadError>>,
)
    requires
        unique_paths(fewer),
        forall|d: Doc| #[trigger] fewer.contains(d) ==> more.contains(d),
        fresh_entries(filter, more, entries),
    ensures
        unique_paths(with_accepted(fewer, filter, entries)),
    decreases entries.len(),
{
    if entries.len() > 0 {
        let rest = entries.drop_last();
        lemma_unique_entries(filter, fewer, more, rest);
        lemma_accepted_entries_grow(filter, fewer, more, rest);
        if let Ok(file) = entries.last() {
            if filter.accepts(file.path@) {
                let held = with_accepted(fewer, filter, rest);
                if has_path(held, file.path@) {
                    let d = choose|d: Doc| #[trigger] held.contains(d) && d.0 == file.path@;
                    assert(with_accepted(more, filter, rest).contains(d));
                }
                lemma_unique_insert(held, file@);
            }
        }
    }
}

/// Where no two staged documents share a path, none do after an operation
/// that adds no document under a path that is still taken.
pub proof fn lemma_key_uniqueness<F: FileFilter>(
    filter: &F,
    change: Change,
    loaded: Loaded,
    before: Multiset<Doc>,
    committed: Multiset<Doc>,
    after: Multiset<Doc>,
)
    requires
        unique_paths(before),
        adds_fresh(filter, change, loaded, before),
        applied(filter, change, loaded, before, committed, after),
    ensures
        unique_paths(after),
{
    broadcast use vstd::multiset::group_multiset_axioms;

    match change {
        Change::FileCreated(path) => {
            if let Loaded::File(Ok(file)) = loaded {
                if filter.accepts(path) {
                    lemma_unique_insert(before, file@);
                }
            }
        },
        Change::FileModified(path) => {
            if let Loaded::File(Ok(file)) = loaded {
                if filter.accepts(path) {
                    let between = without_path(before, file.path@);
                    lemma_unique_remainder(before, between);
                    lemma_without_path(before, file.path@);
                    lemma_unique_insert(between, file@);
                }
            }
        },
        Change::FileDeleted(path) => {
            lemma_unique_remainder(before, without_path(before, path));
        },
        Change::FileRenamed { old_path, new_path } => {
            let between = without_path(before, old_path);
            lemma_unique_remainder(before, between);
            if let Loaded::File(Ok(file)) = loaded {
                if filter.accepts(new_path) {
                    if filter.accepts(old_path) {
                        lemma_unique_insert(between, file@);
                    } else {
                        lemma_unique_insert(before, file@);
                    }
                }
            }
        },
        Change::DirectoryDeleted(path) => {
            lemma_unique_remainder(before, after);
        },
        Change::DirectoryRenamed { old_path, new_path } => {
            let between = choose|between: Multiset<Doc>|
                #![trigger prefix_removed(before, committed, old_path, between)]
                prefix_removed(before, committed, old_path, between) && after == with_accepted(
                    between,
                    filter,
                    entries_of(loaded),
                );
            lemma_unique_remainder(before, between);
            assert forall|d: Doc| #[trigger] between.contains(d) implies before.contains(d) by {
                assert(between.count(d) == before.count(d) || between.count(d) == 0);
            }
            lemma_unique_entries(filter, between, before, entries_of(loaded));
        },
    }
}

/// Where no two staged documents share a path before a batch, none do after
/// each of its operations, as long as none of them adds a document under a
/// path that is still taken.
pub proof fn lemma_batch_key_uniqueness<F: FileFilter, L: FileLoader>(
    filter: &F,
    loader: &L,
    operations: Seq<FileOperation>,
    loads: Seq<Loaded>,
    committed: Multiset<Doc>,
    states: Seq<Multiset<Doc>>,
)
    requires
        batch_trace(filter, loader, operations, loads, committed, states),
        unique_paths(states.first()),
        forall|i: int|
            0 <= i < operations.len() ==> adds_fresh(
                filter,
                operations[i]@,
                #[trigger] loads[i],
                states[i],
            ),
    ensures
        forall|i: int| 0 <= i <= operations.len() ==> unique_paths(#[trigger] states[i]),
{
    assert forall|i: int| 0 <= i <= operations.len() implies unique_paths(
        #[trigger] states[i],
    ) by {
        lemma_unique_up_to(filter, loader, operations, loads, committed, states, i);
    }
}

proof fn lemma_unique_up_to<F: FileFilter, L: FileLoader>(
    filter: &F,
    loader: &L,
    operations: Seq<FileOperation>,
    loads: Seq<Loaded>,
    committed: Multiset<Doc>,
    states: Seq<Multiset<Doc>>,
    upto: int,
)
    requires
        batch_trace(filter, loader, operations, loads, committed, states),
        unique_paths(states.first()),
        forall|i: int|
            0 <= i < operations.len() ==> adds_fresh(
                filter,
                operations[i]@,
                #[trigger] loads[i],
                states[i],
            ),
        0 <= upto <= operations.len(),
    ensures
        unique_paths(states[upto]),
    decreases upto,
{
    if upto > 0 {
        lemma_unique_up_to(filter, loader, operations, loads, committed, states, upto - 1);
        let i = upto - 1;
        assert(adds_fresh(filter, operations[i]@, loads[i], states[i]));
        lemma_key_uniqueness(
            filter,
            operations[i]@,
            loads[i],
            states[i],
            committed,
            states[i + 1],
        );
    }
}

} // verus!
