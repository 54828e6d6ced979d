//! Applying a batch a second time changes no document, as long as every
//! delete by prefix reaches all that lies under its prefix.

use crate::search::file::{views, Change, File, FileFilter, FileLoader, FileOperation, LoadError};
use crate::search::index_operation::{
    answered, applied, batch_trace, entries_of, outcome, outcomes, wanted, with_accepted,
    Loaded,
};
use crate::search::laws::compliance::known_under;
use crate::search::model::{
    has_path, lemma_insert, lemma_without_path, prefix_removed, without_path, without_prefix,
    Doc,
};
use vstd::multiset::Multiset;
use vstd::prelude::*;

verus! {

/// The prefix under which `change` deletes, if it deletes by prefix.
pub open spec fn deleted_prefix(change: Change) -> Option<Seq<char>> {
    match change {
        Change::DirectoryDeleted(path) => Some(path),
        Change::DirectoryRenamed { old_path, new_path } => Some(old_path),
        _ => None,
    }
}

/// Whether two multisets hold the same documents, whatever the number of
/// copies.
pub open spec fn same_documents(a: Multiset<Doc>, b: Multiset<Doc>) -> bool {
    forall|d: Doc| a.contains(d) <==> b.contains(d)
}

/// An operation whose delete by prefix finds every document under the prefix
/// known to the last commit does what [`outcome`] says.
pub proof fn lemma_complete_outcome<F: FileFilter>(
    filter: &F,
    change: Change,
    loaded: Loaded,
    before: Multiset<Doc>,
    committed: Multiset<Doc>,
    after: Multiset<Doc>,
)
    requires
        applied(filter, change, loaded, before, committed, after),
        deleted_prefix(change) matches Some(prefix) ==> known_under(before, committed, prefix),
    ensures
        after == outcome(filter, change, loaded, before),
{
    broadcast use vstd::multiset::group_multiset_axioms;

    match change {
        Change::DirectoryDeleted(path) => {
            lemma_complete_removal(before, committed, path, after);
        },
        Change::DirectoryRenamed { old_path, new_path } => {
            let between = choose|between: Multiset<Doc>|
                #![trigger prefix_removed(before, committed, old_path, between)]
                prefix_removed(before, committed, old_path, between) && after == with_accepted(
                    between,
                    filter,
                    entries_of(loaded),
                );
            lemma_complete_removal(before, committed, old_path, between);
        },
        _ => {},
    }
}

/// A delete by prefix that finds every document under the prefix known to
/// the last commit removes exactly the documents under the prefix.
pub proof fn lemma_complete_removal(
    before: Multiset<Doc>,
    committed: Multiset<Doc>,
    prefix: Seq<char>,
    after: Multiset<Doc>,
)
    requires
        prefix_removed(before, committed, prefix, after),
        known_under(before, committed, prefix),
    ensures
        after == without_prefix(before, prefix),
{
    broadcast use vstd::multiset::group_multiset_axioms;

    let expected = without_prefix(before, prefix);
    assert forall|d: Doc| after.count(d) == expected.count(d) by {
        assert(after.count(d) == before.count(d) || after.count(d) == 0);
        if prefix.is_prefix_of(d.0) {
            if before.contains(d) {
                assert(has_path(committed, d.0));
            }
        }
    }
    assert(after =~= expected);
}

/// A batch in which every delete by prefix finds the documents under its
/// prefix known to the last commit ends where [`outcomes`] says.
pub proof fn lemma_complete_batch<F: FileFilter, L: FileLoader>(
    filter: &F,
    loader: &L,
    operations: Seq<FileOperation>,
    loads: Seq<Loaded>,
    committed: Multiset<Doc>,
    states: Seq<Multiset<Doc>>,
)
    requires
        batch_trace(filter, loader, operations, loads, committed, states),
        forall|i: int|
            #![trigger states[i]]
            0 <= i < operations.len() ==> (deleted_prefix(operations[i]@) matches Some(prefix)
                ==> known_under(states[i], committed, prefix)),
    ensures
        states.last() == outcomes(filter, views(operations), loads, states.first()),
    decreases operations.len(),
{
    if operations.len() > 0 {
        let last = operations.len() - 1;
        let shorter = operations.drop_last();
        assert(views(operations).drop_last() =~= views(shorter));
        assert(views(operations).last() == operations[last]@);
        assert forall|i: int|
            #![trigger loads.drop_last()[i]]
            0 <= i < shorter.len() implies answered(
            loader,
            wanted(filter, shorter[i]@),
            loads.drop_last()[i],
        ) && applied(
            filter,
            shorter[i]@,
            loads.drop_last()[i],
            states.drop_last()[i],
            committed,
            states.drop_last()[i + 1],
        ) by {
            assert(loads[i] == loads.drop_last()[i]);
        }
        assert forall|i: int|
            #![trigger states.drop_last()[i]]
            0 <= i < shorter.len() implies (deleted_prefix(shorter[i]@) matches Some(prefix)
            ==> known_under(states.drop_last()[i], committed, prefix)) by {
            assert(states[i] == states.drop_last()[i]);
        }
        lemma_complete_batch(filter, loader, shorter, loads.drop_last(), committed, states.drop_last());
        assert(states.drop_last().last() == states[last]);
        assert(loads[last] == loads.last());
        assert(states[last] == states[last]);
        lemma_complete_outcome(
            filter,
            operations[last]@,
            loads[last],
            states[last],
            committed,
            states[last + 1],
        );
    }
}

/// Whether one of the entries loaded, is accepted, and is the document `d`.
pub open spec fn among_accepted<F: FileFilter>(
    filter: &F,
    entries: Seq<Result<File, LoadError>>,
    d: Doc,
) -> bool {
    exists|i: int|
        0 <= i < entries.len() && ((#[trigger] entries[i]) matches Ok(file) && filter.accepts(
            file.path@,
        ) && file@ == d)
}

/// Whether a document `d` is held after `change`, given whether it `was`
/// held before, when a delete by prefix is complete.
pub open spec fn held_after<F: FileFilter>(
    filter: &F,
    change: Change,
    loaded: Loaded,
    was: bool,
    d: Doc,
) -> bool {
    match change {
        Change::FileCreated(path) => match loaded {
            Loaded::File(Ok(file)) if filter.accepts(path) => was || d == file@,
            _ => was,
        },
        Change::FileModified(path) => match loaded {
            Loaded::File(Ok(file)) if filter.accepts(path) => (was && d.0 != file.path@) || d
                == file@,
            _ => was,
        },
        Change::FileDeleted(path) => was && d.0 != path,
        Change::FileRenamed { old_path, new_path } => if filter.accepts(new_path) {
            match loaded {
                Loaded::File(Ok(file)) => if filter.accepts(old_path) {
                    (was && d.0 != old_path) || d == file@
                } else {
                    was || d == file@
                },
                _ => was,
            }
        } else if filter.accepts(old_path) {
            was && d.0 != old_path
        } else {
            was
        },
        Change::DirectoryDeleted(path) => was && !path.is_prefix_of(d.0),
        Change::DirectoryRenamed { old_path, new_path } => (was && !old_path.is_prefix_of(d.0))
            || among_accepted(filter, entries_of(loaded), d),
    }
}

/// Whether a document `d` is held after all the changes, given whether it
/// `was` held before them.
pub open spec fn held_after_all<F: FileFilter>(
    filter: &F,
    changes: Seq<Change>,
    loads: Seq<Loaded>,
    was: bool,
    d: Doc,
) -> bool
    decreases changes.len(),
{
    if changes.len() == 0 || loads.len() != changes.len() {
        was
    } else {
        held_after(
            filter,
            changes.last(),
            loads.last(),
            held_after_all(filter, changes.drop_last(), loads.drop_last(), was, d),
            d,
        )
    }
}

/// A document is held after the accepted entries were added where it was
/// held before or is one of them.
pub proof fn lemma_accepted_entries_hold<F: FileFilter>(
    filter: &F,
    docs: Multiset<Doc>,
    entries: Seq<Result<File, LoadError>>,
    d: Doc,
)
    ensures
        with_accepted(docs, filter, entries).contains(d) <==> docs.contains(d) || among_accepted(
            filter,
            entries,
            d,
        ),
    decreases entries.len(),
{
    if entries.len() > 0 {
        let rest = entries.drop_last();
        lemma_accepted_entries_hold(filter, docs, rest, d);
        let last = entries.len() - 1;
        if let Ok(file) = entries.last() {
            lemma_insert(with_accepted(docs, filter, rest), file@);
        }
        if among_accepted(filter, rest, d) {
            let i = choose|i: int|
                0 <= i < rest.len() && ((#[trigger] rest[i]) matches Ok(file) && filter.accepts(
                    file.path@,
                ) && file@ == d);
            assert(entries[i] == rest[i]);
        }
        if among_accepted(filter, entries, d) {
            let i = choose|i: int|
                0 <= i < entries.len() && ((#[trigger] entries[i]) matches Ok(file)
                    && filter.accepts(file.path@) && file@ == d);
            if i < last {
                assert(rest[i] == entries[i]);
            }
        }
        if entries.last() matches Ok(file) && filter.accepts(file.path@) && file@ == d {
            assert(entries[last] == entries.last());
        }
    }
}

/// [`held_after`] says which documents [`outcome`] holds.
pub proof fn lemma_outcome_holds<F: FileFilter>(
    filter: &F,
    change: Change,
    loaded: Loaded,
    before: Multiset<Doc>,
    d: Doc,
)
    ensures
        outcome(filter, change, loaded, before).contains(d) == held_after(
            filter,
            change,
            loaded,
            before.contains(d),
            d,
        ),
{
    broadcast use vstd::multiset::group_multiset_axioms;

    match change {
        Change::FileCreated(path) => {
            if let Loaded::File(Ok(file)) = loaded {
                lemma_insert(before, file@);
            }
        },
        Change::FileModified(path) => {
            if let Loaded::File(Ok(file)) = loaded {
                lemma_without_path(before, file.path@);
                lemma_insert(without_path(before, file.path@), file@);
            }
        },
        Change::FileDeleted(path) => {
            lemma_without_path(before, path);
        },
        Change::FileRenamed { old_path, new_path } => {
            lemma_without_path(before, old_path);
            if let Loaded::File(Ok(file)) = loaded {
                lemma_insert(before, file@);
                lemma_insert(without_path(before, old_path), file@);
            }
        },
        Change::DirectoryDeleted(path) => {},
        Change::DirectoryRenamed { old_path, new_path } => {
            lemma_accepted_entries_hold(
                filter,
                without_prefix(before, old_path),
                entries_of(loaded),
                d,
            );
        },
    }
}

/// [`held_after_all`] says which documents [`outcomes`] holds, and a document
/// held before is held after wherever one not held before is.
pub proof fn lemma_outcomes_hold<F: FileFilter>(
    filter: &F,
    changes: Seq<Change>,
    loads: Seq<Loaded>,
    before: Multiset<Doc>,
    d: Doc,
)
    ensures
        outcomes(filter, changes, loads, before).contains(d) == held_after_all(
            filter,
            changes,
            loads,
            before.contains(d),
            d,
        ),
        held_after_all(filter, changes, loads, false, d) ==> held_after_all(
            filter,
            changes,
            loads,
            true,
            d,
        ),
    decreases changes.len(),
{
    if changes.len() > 0 && loads.len() == changes.len() {
        lemma_outcomes_hold(filter, changes.drop_last(), loads.drop_last(), before, d);
        lemma_outcome_holds(
            filter,
            changes.last(),
            loads.last(),
            outcomes(filter, changes.drop_last(), loads.drop_last(), before),
            d,
        );
    }
}

/// Applying the same operations, with the same loads, once more to what they
/// gave leaves the same documents, as long as every delete by prefix is
/// complete.
pub proof fn lemma_bulk_idempotence<F: FileFilter>(
    filter: &F,
    changes: Seq<Change>,
    loads: Seq<Loaded>,
    before: Multiset<Doc>,
)
    ensures
        same_documents(
            outcomes(filter, changes, loads, outcomes(filter, changes, loads, before)),
            outcomes(filter, changes, loads, before),
        ),
{
    let once = outcomes(filter, changes, loads, before);
    let twice = outcomes(filter, changes, loads, once);
    assert forall|d: Doc| twice.contains(d) <==> once.contains(d) by {
        lemma_outcomes_hold(filter, changes, loads, before, d);
        lemma_outcomes_hold(filter, changes, loads, once, d);
    }
}

} // verus!
