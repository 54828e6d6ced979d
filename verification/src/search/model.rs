//! The index as mathematics: a multiset of `(path, content)` pairs, and what
//! each mutation does to it.

use crate::search::engine::lists_path;
use vstd::multiset::Multiset;
use vstd::prelude::*;

verus! {

/// A document as the contracts see it: its path and its content.
pub type Doc = (Seq<char>, Seq<char>);

/// The counter of uncommitted operations after `by` more of them; it stops at
/// the largest `u32`.
pub open spec fn bump(pending: nat, by: nat) -> nat {
    if pending + by > u32::MAX {
        u32::MAX as nat
    } else {
        pending + by
    }
}

/// `docs` without every document stored under `path`.
pub open spec fn without_path(docs: Multiset<Doc>, path: Seq<char>) -> Multiset<Doc> {
    docs.filter(|d: Doc| d.0 != path)
}

/// `docs` without every document whose path begins with `prefix`.
pub open spec fn without_prefix(docs: Multiset<Doc>, prefix: Seq<char>) -> Multiset<Doc> {
    docs.filter(|d: Doc| !prefix.is_prefix_of(d.0))
}

/// Whether `path` begins with `prefix` and is one of the readable `terms`.
pub open spec fn listed_under(terms: Seq<Option<String>>, prefix: Seq<char>, path: Seq<char>) -> bool {
    prefix.is_prefix_of(path) && lists_path(terms, path)
}

/// `docs` without every document whose path is listed in `terms` and begins
/// with `prefix`.
pub open spec fn without_listed(
    docs: Multiset<Doc>,
    terms: Seq<Option<String>>,
    prefix: Seq<char>,
) -> Multiset<Doc> {
    docs.filter(|d: Doc| !listed_under(terms, prefix, d.0))
}

/// How many entries of `terms` are readable and begin with `prefix`.
pub open spec fn count_under(terms: Seq<Option<String>>, prefix: Seq<char>) -> nat
    decreases terms.len(),
{
    if terms.len() == 0 {
        0
    } else {
        let rest = count_under(terms.drop_last(), prefix);
        match terms.last() {
            Some(term) => if prefix.is_prefix_of(term@) {
                rest + 1
            } else {
                rest
            },
            None => rest,
        }
    }
}

/// Whether some document of `docs` is stored under `path`.
pub open spec fn has_path(docs: Multiset<Doc>, path: Seq<char>) -> bool {
    exists|d: Doc| #[trigger] docs.contains(d) && d.0 == path
}

/// What a delete by prefix leaves behind, whatever terms the engine listed:
/// a document is either untouched or gone with all its copies; those outside
/// the prefix are untouched; those under it whose path the last commit knows
/// are gone.
pub open spec fn prefix_removed(
    before: Multiset<Doc>,
    committed: Multiset<Doc>,
    prefix: Seq<char>,
    after: Multiset<Doc>,
) -> bool {
    &&& forall|d: Doc| #[trigger] after.count(d) == before.count(d) || after.count(d) == 0
    &&& forall|d: Doc| !prefix.is_prefix_of(d.0) ==> #[trigger] after.count(d) == before.count(d)
    &&& forall|d: Doc|
        prefix.is_prefix_of(d.0) && has_path(committed, d.0) ==> #[trigger] after.count(d) == 0
}

/// Whether no document of `docs` has a path that begins with `prefix`.
pub open spec fn none_under(docs: Multiset<Doc>, prefix: Seq<char>) -> bool {
    forall|d: Doc| #[trigger] docs.contains(d) ==> !prefix.is_prefix_of(d.0)
}

/// Whether no two documents of `docs` share a path.
pub open spec fn unique_paths(docs: Multiset<Doc>) -> bool {
    forall|a: Doc, b: Doc|
        #![trigger docs.contains(a), docs.contains(b)]
        docs.contains(a) && docs.contains(b) && a.0 == b.0 ==> a == b && docs.count(a) == 1
}

/// What a multiset holds after one more document.
pub proof fn lemma_insert(docs: Multiset<Doc>, doc: Doc)
    ensures
        forall|d: Doc| #[trigger] docs.insert(doc).contains(d) <==> docs.contains(d) || d == doc,
        forall|d: Doc| d != doc ==> #[trigger] docs.insert(doc).count(d) == docs.count(d),
        docs.insert(doc).count(doc) == docs.count(doc) + 1,
{
    broadcast use vstd::multiset::group_multiset_axioms;

}

/// What a multiset holds after the documents of one path have left.
pub proof fn lemma_without_path(docs: Multiset<Doc>, path: Seq<char>)
    ensures
        forall|d: Doc| #[trigger]
            without_path(docs, path).contains(d) <==> docs.contains(d) && d.0 != path,
        forall|d: Doc| d.0 != path ==> #[trigger] without_path(docs, path).count(d) == docs.count(d),
        !has_path(without_path(docs, path), path),
{
    broadcast use vstd::multiset::group_multiset_axioms;

}

/// Dropping the terms one by one gives the same as dropping them at once:
/// the step from the first `i` terms to the first `i + 1`.
pub proof fn lemma_without_listed_step(
    docs: Multiset<Doc>,
    terms: Seq<Option<String>>,
    prefix: Seq<char>,
    i: int,
)
    requires
        0 <= i < terms.len(),
    ensures
        (terms[i] matches Some(term) && prefix.is_prefix_of(term@)) ==> without_listed(
            docs,
            terms.take(i + 1),
            prefix,
        ) =~= without_path(without_listed(docs, terms.take(i), prefix), terms[i]->0@),
        !(terms[i] matches Some(term) && prefix.is_prefix_of(term@)) ==> without_listed(
            docs,
            terms.take(i + 1),
            prefix,
        ) =~= without_listed(docs, terms.take(i), prefix),
        count_under(terms.take(i + 1), prefix) == count_under(terms.take(i), prefix) + if (
        terms[i] matches Some(term) && prefix.is_prefix_of(term@)) {
            1nat
        } else {
            0nat
        },
{
    broadcast use vstd::multiset::group_multiset_axioms;

    let shorter = terms.take(i);
    let longer = terms.take(i + 1);
    assert(longer.drop_last() =~= shorter);
    assert(longer.last() == terms[i]);
    assert forall|p: Seq<char>| lists_path(longer, p) <==> (lists_path(shorter, p) || (
    terms[i] matches Some(term) && term@ == p)) by {
        if lists_path(longer, p) {
            let k = choose|k: int|
                0 <= k < longer.len() && ((#[trigger] longer[k]) matches Some(term) && term@ == p);
            if k < i {
                assert(shorter[k] == longer[k]);
            }
        }
        if lists_path(shorter, p) {
            let k = choose|k: int|
                0 <= k < shorter.len() && ((#[trigger] shorter[k]) matches Some(term) && term@
                    == p);
            assert(longer[k] == shorter[k]);
        }
        if terms[i] matches Some(term) && term@ == p {
            assert(longer[i] == terms[i]);
        }
    }
}

/// Dropping no term leaves every document.
pub proof fn lemma_without_listed_none(docs: Multiset<Doc>, prefix: Seq<char>)
    ensures
        without_listed(docs, Seq::empty(), prefix) == docs,
        count_under(Seq::empty(), prefix) == 0,
{
    broadcast use vstd::multiset::group_multiset_axioms;

    assert forall|p: Seq<char>| !lists_path(Seq::empty(), p) by {}
    assert(without_listed(docs, Seq::empty(), prefix) =~= docs);
}

} // verus!
